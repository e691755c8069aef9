//! The affine transform evaluator.
//!
//! A transform attribute holds at most one function: `matrix`, `translate`,
//! `scale`, `rotate`, `skewX` or `skewY`; anything else (the empty string
//! included) is the identity.  Parsing yields a typed [`Transform`], and
//! [`apply_transform`] maps one coordinate pair through it.  The matrix form
//! computes both outputs from the *original* pair — the pair is applied
//! simultaneously, never sequentially.  Skew angles are fed to the tangent
//! as they stand; rotation angles are degrees and are converted.  Every
//! output coordinate is saturated into the operand range of the engine.

use vstd::prelude::*;
use crate::fx::{
    FX_ONE, iabs, tdiv, fmul, fdiv, fclamp, fmul_e, fdiv_e, fclamp_e, tdiv_e, lemma_fmul_le,
    lemma_fdiv_bound,
};
use crate::trig::{spec_sin, spec_cos, spec_tan, sin_fx, cos_fx, tan_fx, PI_FX, TAN_CLAMP_FX};
use crate::numparse::{
    OPERAND_MAX, number_ok, number_val, spec_trim, spec_split_byte, find_byte, split_byte, trim,
    parse_fx, starts_with, sub_vec,
};
use crate::SvgError;

verus! {

/// Smallest per-axis normalization scale the engine accepts: a ten
/// thousandth of a canvas unit per document unit.
pub const SCALE_MIN: i128 = 10_000_000;

/// A parsed transform attribute.
#[derive(Clone, Copy, Debug, PartialEq, Eq, Structural)]
pub enum Transform {
    /// `matrix(a, b, c, d, e, f)`.
    Matrix(i128, i128, i128, i128, i128, i128),
    /// `translate(tx, ty)`, in untransformed document units.
    Translate(i128, i128),
    /// `scale(sx, sy)`.
    Scale(i128, i128),
    /// `rotate(deg)`, degrees about the origin.
    Rotate(i128),
    /// `skewX(a)`: shear along x by `tan(a)`.
    SkewX(i128),
    /// `skewY(a)`: shear along y by `tan(a)`.
    SkewY(i128),
    /// Anything unrecognized: the input passes through unchanged.
    Identity,
}

/// All operands of a transform are inside the operand range.
pub open spec fn transform_wf(t: Transform) -> bool {
    match t {
        Transform::Matrix(a, b, c, d, e, f) => {
            &&& -OPERAND_MAX < a < OPERAND_MAX
            &&& -OPERAND_MAX < b < OPERAND_MAX
            &&& -OPERAND_MAX < c < OPERAND_MAX
            &&& -OPERAND_MAX < d < OPERAND_MAX
            &&& -OPERAND_MAX < e < OPERAND_MAX
            &&& -OPERAND_MAX < f < OPERAND_MAX
        },
        Transform::Translate(tx, ty) => -OPERAND_MAX < tx < OPERAND_MAX && -OPERAND_MAX < ty
            < OPERAND_MAX,
        Transform::Scale(sx, sy) => -OPERAND_MAX < sx < OPERAND_MAX && -OPERAND_MAX < sy
            < OPERAND_MAX,
        Transform::Rotate(d) => -OPERAND_MAX < d < OPERAND_MAX,
        Transform::SkewX(d) => -OPERAND_MAX < d < OPERAND_MAX,
        Transform::SkewY(d) => -OPERAND_MAX < d < OPERAND_MAX,
        Transform::Identity => true,
    }
}

/// The rotation angle of `deg` degrees, in fixed-point radians.
pub open spec fn spec_deg_to_rad(deg: int) -> int {
    tdiv(fmul(deg, PI_FX as int), 180)
}

/// Where a transform sends the pair `(x, y)`: the contract of
/// [`apply_transform`].  `sx` and `sy` are the per-axis normalization
/// scales; only `translate` consumes them.  Both outputs are computed from
/// the original pair and saturated into the operand range.
pub open spec fn spec_apply(t: Transform, x: int, y: int, sx: int, sy: int) -> (int, int) {
    let m = OPERAND_MAX as int;
    match t {
        Transform::Matrix(a, b, c, d, e, f) => (
            fclamp(fmul(a as int, x) + fmul(c as int, y) + e, m),
            fclamp(fmul(b as int, x) + fmul(d as int, y) + f, m),
        ),
        Transform::Translate(tx, ty) => (
            fclamp(x + fdiv(tx as int, sx), m),
            fclamp(y + fdiv(ty as int, sy), m),
        ),
        Transform::Scale(fx_, fy_) => (
            fclamp(fmul(x, fx_ as int), m),
            fclamp(fmul(y, fy_ as int), m),
        ),
        Transform::Rotate(deg) => {
            let rad = spec_deg_to_rad(deg as int);
            let c = spec_cos(rad);
            let s = spec_sin(rad);
            (fclamp(fmul(x, c) - fmul(y, s), m), fclamp(fmul(x, s) + fmul(y, c), m))
        },
        Transform::SkewX(a) => (fclamp(x + fmul(y, spec_tan(a as int)), m), y),
        Transform::SkewY(a) => (x, fclamp(y + fmul(x, spec_tan(a as int)), m)),
        Transform::Identity => (x, y),
    }
}

/// The word `matrix` with its opening parenthesis.
pub open spec fn lit_matrix() -> Seq<u8> {
    seq![109u8, 97u8, 116u8, 114u8, 105u8, 120u8, 40u8]
}

/// The word `translate` with its opening parenthesis.
pub open spec fn lit_translate() -> Seq<u8> {
    seq![116u8, 114u8, 97u8, 110u8, 115u8, 108u8, 97u8, 116u8, 101u8, 40u8]
}

/// The word `scale` with its opening parenthesis.
pub open spec fn lit_scale() -> Seq<u8> {
    seq![115u8, 99u8, 97u8, 108u8, 101u8, 40u8]
}

/// The word `rotate` with its opening parenthesis.
pub open spec fn lit_rotate() -> Seq<u8> {
    seq![114u8, 111u8, 116u8, 97u8, 116u8, 101u8, 40u8]
}

/// The word `skewX` with its opening parenthesis.
pub open spec fn lit_skewx() -> Seq<u8> {
    seq![115u8, 107u8, 101u8, 119u8, 88u8, 40u8]
}

/// The word `skewY` with its opening parenthesis.
pub open spec fn lit_skewy() -> Seq<u8> {
    seq![115u8, 107u8, 101u8, 119u8, 89u8, 40u8]
}

/// `s` begins with the keyword `kw`.
pub open spec fn has_kw(s: Seq<u8>, kw: Seq<u8>) -> bool {
    s.len() >= kw.len() && s.take(kw.len() as int) == kw
}

/// The argument text of a recognized form: between the keyword and a final
/// closing parenthesis.
pub open spec fn inner_of(s: Seq<u8>, kw: Seq<u8>) -> Seq<u8> {
    s.subrange(kw.len() as int, s.len() - 1)
}

/// The comma-separated argument values of a transform, each trimmed and
/// read as a number; `None` as soon as one chunk is not a number.
pub open spec fn csv_vals(chunks: Seq<Seq<u8>>) -> Option<Seq<i128>>
    decreases chunks.len(),
{
    if chunks.len() == 0 {
        Some(Seq::empty())
    } else {
        let h = spec_trim(chunks[0]);
        if number_ok(h) {
            match csv_vals(chunks.skip(1)) {
                Some(t) => Some(seq![number_val(h) as i128] + t),
                None => None,
            }
        } else {
            None
        }
    }
}

/// The arguments of a recognized form `kw(...)`: `None` when the closing
/// parenthesis is missing or an argument is not a number.
pub open spec fn args_of(s: Seq<u8>, kw: Seq<u8>) -> Option<Seq<i128>> {
    if s.len() > kw.len() && s.last() == 41 {
        csv_vals(spec_split_byte(inner_of(s, kw), 44))
    } else {
        None
    }
}

/// The single leading argument of `rotate`/`skewX`/`skewY`: the text up to
/// the first space, read as a number.
pub open spec fn first_arg_of(s: Seq<u8>, kw: Seq<u8>) -> Option<i128> {
    if s.len() > kw.len() && s.last() == 41 {
        let inner = inner_of(s, kw);
        let f = inner.take(find_byte(inner, 32) as int);
        if number_ok(f) {
            Some(number_val(f) as i128)
        } else {
            None
        }
    } else {
        None
    }
}

/// What parsing a transform attribute yields: a typed transform, or `None`
/// for a malformed operand of a recognized form.
pub open spec fn spec_parse_transform(s: Seq<u8>) -> Option<Transform> {
    if has_kw(s, lit_matrix()) {
        match args_of(s, lit_matrix()) {
            Some(v) => if v.len() == 6 {
                Some(Transform::Matrix(v[0], v[1], v[2], v[3], v[4], v[5]))
            } else {
                None
            },
            None => None,
        }
    } else if has_kw(s, lit_translate()) {
        match args_of(s, lit_translate()) {
            Some(v) => if v.len() == 2 {
                Some(Transform::Translate(v[0], v[1]))
            } else {
                None
            },
            None => None,
        }
    } else if has_kw(s, lit_scale()) {
        match args_of(s, lit_scale()) {
            Some(v) => if v.len() == 2 {
                Some(Transform::Scale(v[0], v[1]))
            } else {
                None
            },
            None => None,
        }
    } else if has_kw(s, lit_rotate()) {
        match first_arg_of(s, lit_rotate()) {
            Some(d) => Some(Transform::Rotate(d)),
            None => None,
        }
    } else if has_kw(s, lit_skewx()) {
        match first_arg_of(s, lit_skewx()) {
            Some(d) => Some(Transform::SkewX(d)),
            None => None,
        }
    } else if has_kw(s, lit_skewy()) {
        match first_arg_of(s, lit_skewy()) {
            Some(d) => Some(Transform::SkewY(d)),
            None => None,
        }
    } else {
        Some(Transform::Identity)
    }
}

/// Reads the comma-separated arguments of a transform form.
fn parse_csv(inner: &[u8]) -> (r: Result<Vec<i128>, SvgError>)
    ensures
        match r {
            Ok(v) => csv_vals(spec_split_byte(inner@, 44)) == Some(v@) && forall|j: int|
                0 <= j < v@.len() ==> -OPERAND_MAX < #[trigger] v@[j] < OPERAND_MAX,
            Err(e) => csv_vals(spec_split_byte(inner@, 44)) is None && e
                == SvgError::NumericParseError,
        },
{
    let chunks: Vec<Vec<u8>> = split_byte(inner, 44);
    let ghost cd = chunks.deep_view();
    let mut out: Vec<i128> = Vec::new();
    let mut k: usize = 0;
    proof {
        assert(cd.skip(0) =~= cd);
    }
    while k < chunks.len()
        invariant
            0 <= k <= chunks@.len(),
            cd == chunks.deep_view(),
            cd =~~= spec_split_byte(inner@, 44),
            cd.len() == chunks@.len(),
            forall|j: int| 0 <= j < cd.len() ==> cd[j] == chunks@[j]@,
            forall|j: int| 0 <= j < out@.len() ==> -OPERAND_MAX < #[trigger] out@[j] < OPERAND_MAX,
            csv_vals(cd) == match csv_vals(cd.skip(k as int)) {
                Some(t) => Some(out@ + t),
                None => None::<Seq<i128>>,
            },
        decreases chunks@.len() - k,
    {
        let t = trim(chunks[k].as_slice());
        proof {
            assert(cd.skip(k as int)[0] == cd[k as int]);
            assert(cd.skip(k as int).skip(1) =~= cd.skip(k as int + 1));
        }
        match parse_fx(t.as_slice()) {
            Ok(v) => {
                out.push(v);
                proof {
                    if csv_vals(cd.skip(k as int + 1)) is Some {
                        let tail = csv_vals(cd.skip(k as int + 1)).unwrap();
                        assert(out@ + tail =~= out@.drop_last() + (seq![v] + tail));
                    }
                }
            },
            Err(_) => {
                return Err(SvgError::NumericParseError);
            },
        }
        k += 1;
    }
    proof {
        assert(cd.skip(k as int) =~= Seq::<Seq<u8>>::empty());
        assert(out@ + Seq::<i128>::empty() =~= out@);
    }
    Ok(out)
}

/// Reads a transform attribute into a typed [`Transform`].  An attribute
/// that names no known form is the identity; a known form with a missing
/// parenthesis or a malformed operand is a `NumericParseError`.
pub fn parse_transform(s: &[u8]) -> (r: Result<Transform, SvgError>)
    ensures
        match r {
            Ok(t) => spec_parse_transform(s@) == Some(t) && transform_wf(t),
            Err(e) => spec_parse_transform(s@) is None && e == SvgError::NumericParseError,
        },
{
    let kw_matrix: [u8; 7] = [109, 97, 116, 114, 105, 120, 40];
    let kw_translate: [u8; 10] = [116, 114, 97, 110, 115, 108, 97, 116, 101, 40];
    let kw_scale: [u8; 6] = [115, 99, 97, 108, 101, 40];
    let kw_rotate: [u8; 7] = [114, 111, 116, 97, 116, 101, 40];
    let kw_skewx: [u8; 6] = [115, 107, 101, 119, 88, 40];
    let kw_skewy: [u8; 6] = [115, 107, 101, 119, 89, 40];
    proof {
        assert(kw_matrix@ =~= lit_matrix());
        assert(kw_translate@ =~= lit_translate());
        assert(kw_scale@ =~= lit_scale());
        assert(kw_rotate@ =~= lit_rotate());
        assert(kw_skewx@ =~= lit_skewx());
        assert(kw_skewy@ =~= lit_skewy());
    }
    if starts_with(s, kw_matrix.as_slice()) {
        match parse_args(s, 7) {
            Ok(v) => {
                if v.len() == 6 {
                    Ok(Transform::Matrix(v[0], v[1], v[2], v[3], v[4], v[5]))
                } else {
                    Err(SvgError::NumericParseError)
                }
            },
            Err(e) => Err(e),
        }
    } else if starts_with(s, kw_translate.as_slice()) {
        match parse_args(s, 10) {
            Ok(v) => {
                if v.len() == 2 {
                    Ok(Transform::Translate(v[0], v[1]))
                } else {
                    Err(SvgError::NumericParseError)
                }
            },
            Err(e) => Err(e),
        }
    } else if starts_with(s, kw_scale.as_slice()) {
        match parse_args(s, 6) {
            Ok(v) => {
                if v.len() == 2 {
                    Ok(Transform::Scale(v[0], v[1]))
                } else {
                    Err(SvgError::NumericParseError)
                }
            },
            Err(e) => Err(e),
        }
    } else if starts_with(s, kw_rotate.as_slice()) {
        match parse_first_arg(s, 7) {
            Ok(d) => Ok(Transform::Rotate(d)),
            Err(e) => Err(e),
        }
    } else if starts_with(s, kw_skewx.as_slice()) {
        match parse_first_arg(s, 6) {
            Ok(d) => Ok(Transform::SkewX(d)),
            Err(e) => Err(e),
        }
    } else if starts_with(s, kw_skewy.as_slice()) {
        match parse_first_arg(s, 6) {
            Ok(d) => Ok(Transform::SkewY(d)),
            Err(e) => Err(e),
        }
    } else {
        Ok(Transform::Identity)
    }
}

/// The comma-separated arguments of `s` past a keyword of length `kwlen`,
/// up to a required final closing parenthesis.
fn parse_args(s: &[u8], kwlen: usize) -> (r: Result<Vec<i128>, SvgError>)
    requires
        s@.len() >= kwlen,
    ensures
        match r {
            Ok(v) => {
                &&& s@.len() > kwlen && s@.last() == 41
                &&& csv_vals(spec_split_byte(s@.subrange(kwlen as int, s@.len() - 1), 44))
                    == Some(v@)
                &&& forall|j: int|
                    0 <= j < v@.len() ==> -OPERAND_MAX < #[trigger] v@[j] < OPERAND_MAX
            },
            Err(e) => {
                &&& !(s@.len() > kwlen && s@.last() == 41) || csv_vals(
                    spec_split_byte(s@.subrange(kwlen as int, s@.len() - 1), 44),
                ) is None
                &&& e == SvgError::NumericParseError
            },
        },
{
    if s.len() <= kwlen || s[s.len() - 1] != 41 {
        return Err(SvgError::NumericParseError);
    }
    let inner = sub_vec(s, kwlen, s.len() - 1);
    parse_csv(inner.as_slice())
}

/// The first space-delimited argument of `s` past a keyword of length
/// `kwlen`, up to a required final closing parenthesis.
fn parse_first_arg(s: &[u8], kwlen: usize) -> (r: Result<i128, SvgError>)
    requires
        s@.len() >= kwlen,
    ensures
        match r {
            Ok(v) => {
                &&& s@.len() > kwlen && s@.last() == 41
                &&& {
                    let inner = s@.subrange(kwlen as int, s@.len() - 1);
                    let f = inner.take(find_byte(inner, 32) as int);
                    number_ok(f) && v == number_val(f) as i128
                }
                &&& -OPERAND_MAX < v < OPERAND_MAX
            },
            Err(e) => {
                &&& !(s@.len() > kwlen && s@.last() == 41) || {
                    let inner = s@.subrange(kwlen as int, s@.len() - 1);
                    !number_ok(inner.take(find_byte(inner, 32) as int))
                }
                &&& e == SvgError::NumericParseError
            },
        },
{
    if s.len() <= kwlen || s[s.len() - 1] != 41 {
        return Err(SvgError::NumericParseError);
    }
    let inner = sub_vec(s, kwlen, s.len() - 1);
    let mut e: usize = 0;
    while e < inner.len() && inner[e] != 32
        invariant
            0 <= e <= inner@.len(),
            forall|j: int| 0 <= j < e ==> inner@[j] != 32,
        decreases inner@.len() - e,
    {
        e += 1;
    }
    proof {
        crate::numparse::lemma_find_byte_is(inner@, 32, e as int);
    }
    let field = sub_vec(inner.as_slice(), 0, e);
    proof {
        assert(field@ =~= inner@.take(e as int));
    }
    parse_fx(field.as_slice())
}

/// Maps `(x, y)` through a parsed transform: the contract is exactly
/// [`spec_apply`].
pub fn apply_transform(t: &Transform, x: i128, y: i128, sx: i128, sy: i128) -> (r: (i128, i128))
    requires
        transform_wf(*t),
        -OPERAND_MAX <= x <= OPERAND_MAX,
        -OPERAND_MAX <= y <= OPERAND_MAX,
        SCALE_MIN <= sx <= OPERAND_MAX,
        SCALE_MIN <= sy <= OPERAND_MAX,
    ensures
        r.0 == spec_apply(*t, x as int, y as int, sx as int, sy as int).0,
        r.1 == spec_apply(*t, x as int, y as int, sx as int, sy as int).1,
        -OPERAND_MAX <= r.0 <= OPERAND_MAX,
        -OPERAND_MAX <= r.1 <= OPERAND_MAX,
{
    match t {
        Transform::Matrix(a, b, c, d, e, f) => {
            let ax = fmul_e(*a, x);
            let cy = fmul_e(*c, y);
            let bx = fmul_e(*b, x);
            let dy = fmul_e(*d, y);
            proof {
                lemma_fmul_le(*a as int, x as int, OPERAND_MAX as int, OPERAND_MAX as int);
                lemma_fmul_le(*c as int, y as int, OPERAND_MAX as int, OPERAND_MAX as int);
                lemma_fmul_le(*b as int, x as int, OPERAND_MAX as int, OPERAND_MAX as int);
                lemma_fmul_le(*d as int, y as int, OPERAND_MAX as int, OPERAND_MAX as int);
            }
            (fclamp_e(ax + cy + *e, OPERAND_MAX), fclamp_e(bx + dy + *f, OPERAND_MAX))
        },
        Transform::Translate(tx, ty) => {
            let dx = fdiv_e(*tx, sx);
            let dy = fdiv_e(*ty, sy);
            proof {
                lemma_fdiv_bound(*tx as int, sx as int, OPERAND_MAX as int, SCALE_MIN as int);
                lemma_fdiv_bound(*ty as int, sy as int, OPERAND_MAX as int, SCALE_MIN as int);
            }
            (fclamp_e(x + dx, OPERAND_MAX), fclamp_e(y + dy, OPERAND_MAX))
        },
        Transform::Scale(fx_, fy_) => {
            let px = fmul_e(x, *fx_);
            let py = fmul_e(y, *fy_);
            proof {
                lemma_fmul_le(x as int, *fx_ as int, OPERAND_MAX as int, OPERAND_MAX as int);
                lemma_fmul_le(y as int, *fy_ as int, OPERAND_MAX as int, OPERAND_MAX as int);
            }
            (fclamp_e(px, OPERAND_MAX), fclamp_e(py, OPERAND_MAX))
        },
        Transform::Rotate(deg) => {
            let rad = deg_to_rad(*deg);
            let c = cos_fx(rad);
            let s = sin_fx(rad);
            let xc = fmul_e(x, c);
            let ys = fmul_e(y, s);
            let xs = fmul_e(x, s);
            let yc = fmul_e(y, c);
            proof {
                lemma_fmul_le(x as int, c as int, OPERAND_MAX as int, 200_000_000_000);
                lemma_fmul_le(y as int, s as int, OPERAND_MAX as int, 200_000_000_000);
                lemma_fmul_le(x as int, s as int, OPERAND_MAX as int, 200_000_000_000);
                lemma_fmul_le(y as int, c as int, OPERAND_MAX as int, 200_000_000_000);
            }
            (fclamp_e(xc - ys, OPERAND_MAX), fclamp_e(xs + yc, OPERAND_MAX))
        },
        Transform::SkewX(a) => {
            let tn = tan_fx(*a);
            let sh = fmul_e(y, tn);
            proof {
                lemma_fmul_le(y as int, tn as int, OPERAND_MAX as int, TAN_CLAMP_FX as int);
            }
            (fclamp_e(x + sh, OPERAND_MAX), y)
        },
        Transform::SkewY(a) => {
            let tn = tan_fx(*a);
            let sh = fmul_e(x, tn);
            proof {
                lemma_fmul_le(x as int, tn as int, OPERAND_MAX as int, TAN_CLAMP_FX as int);
            }
            (x, fclamp_e(y + sh, OPERAND_MAX))
        },
        Transform::Identity => (x, y),
    }
}

/// Degrees to fixed-point radians.
pub fn deg_to_rad(deg: i128) -> (r: i128)
    requires
        -OPERAND_MAX <= deg <= OPERAND_MAX,
    ensures
        r == spec_deg_to_rad(deg as int),
        -crate::trig::SINCOS_IN_MAX <= r <= crate::trig::SINCOS_IN_MAX,
{
    let p = fmul_e(deg, PI_FX);
    proof {
        lemma_fmul_le(deg as int, PI_FX as int, OPERAND_MAX as int, PI_FX as int);
    }
    let r = tdiv_e(p, 180);
    proof {
        crate::fx::lemma_tdiv_abs_is_div(p as int, 180);
        vstd::arithmetic::div_mod::lemma_div_is_ordered(
            iabs(p as int),
            315_000_000_000_000_000,
            180,
        );
    }
    r
}

/// Parses a transform attribute and applies it to one pair: the form of the
/// original evaluator.  `scales` are the per-axis normalization scales.
pub fn transform(x: i128, y: i128, t: &[u8], scales: (i128, i128)) -> (r: Result<
    (i128, i128),
    SvgError,
>)
    requires
        -OPERAND_MAX <= x <= OPERAND_MAX,
        -OPERAND_MAX <= y <= OPERAND_MAX,
        SCALE_MIN <= scales.0 <= OPERAND_MAX,
        SCALE_MIN <= scales.1 <= OPERAND_MAX,
    ensures
        match r {
            Ok(p) => {
                &&& spec_parse_transform(t@) is Some
                &&& p.0 == spec_apply(
                    spec_parse_transform(t@).unwrap(),
                    x as int,
                    y as int,
                    scales.0 as int,
                    scales.1 as int,
                ).0
                &&& p.1 == spec_apply(
                    spec_parse_transform(t@).unwrap(),
                    x as int,
                    y as int,
                    scales.0 as int,
                    scales.1 as int,
                ).1
            },
            Err(e) => spec_parse_transform(t@) is None && e == SvgError::NumericParseError,
        },
{
    match parse_transform(t) {
        Ok(tr) => Ok(apply_transform(&tr, x, y, scales.0, scales.1)),
        Err(e) => Err(e),
    }
}

/// The matrix form is simultaneous: both outputs are functions of the
/// *original* input pair — the second coordinate never sees a mutated
/// first coordinate.
pub proof fn lemma_matrix_simultaneous(
    a: i128,
    b: i128,
    c: i128,
    d: i128,
    e: i128,
    f: i128,
    x: int,
    y: int,
    sx: int,
    sy: int,
)
    ensures
        spec_apply(Transform::Matrix(a, b, c, d, e, f), x, y, sx, sy).0 == fclamp(
            fmul(a as int, x) + fmul(c as int, y) + e,
            OPERAND_MAX as int,
        ),
        spec_apply(Transform::Matrix(a, b, c, d, e, f), x, y, sx, sy).1 == fclamp(
            fmul(b as int, x) + fmul(d as int, y) + f,
            OPERAND_MAX as int,
        ),
{
}

} // verus!
