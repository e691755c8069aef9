//! Fill-region derivation.
//!
//! A primitive whose style declares `fill: rgb(r,g,b);` is filled.  The fill
//! is an approximation, deliberately: the axis-aligned bounding box of the
//! flattened points is computed, and every whole-unit grid cell strictly
//! inside it (clamped to the 0..100 canvas) becomes one fill point.  This
//! under- or over-fills concave outlines; it is exact enough for character
//! cells and is stated exactly below.

use vstd::prelude::*;
use crate::fx::{FX_ONE, tdiv, tdiv_e, fbound, fbound_e};
use crate::numparse::{is_digit, is_ws, is_digit_e, is_ws_e};
use crate::Point;

verus! {

/// The pattern `fill:` then whitespace, `rgb(`, and three comma-separated
/// digit groups closed by `);`, laid out at the positions `a` through `d`.
pub open spec fn fill_parts(s: Seq<u8>, i: int, a: int, b: int, c: int, d: int) -> bool {
    &&& i + 5 <= a
    &&& a < b < c < d < s.len()
    &&& s.subrange(i, i + 5) =~= seq![102u8, 105u8, 108u8, 108u8, 58u8]
    &&& (forall|j: int| i + 5 <= j < a ==> is_ws(#[trigger] s[j]))
    &&& a + 4 <= b
    &&& s.subrange(a, a + 4) =~= seq![114u8, 103u8, 98u8, 40u8]
    &&& digits_then_comma(s, a + 4, b)
    &&& digits_then_comma(s, b + 1, c)
    &&& digits_only(s, c + 1, d)
    &&& c + 1 < d
    &&& s[d] == 41
    &&& d + 1 < s.len() && s[d + 1] == 59
}

/// The fill pattern matches at position `i`.
pub open spec fn fill_match_at(s: Seq<u8>, i: int) -> bool {
    exists|a: int, b: int, c: int, d: int| fill_parts(s, i, a, b, c, d)
}

/// Bytes `from..to` are one or more digits, optionally led by whitespace,
/// and `s[to]` is a comma.
pub open spec fn digits_then_comma(s: Seq<u8>, from: int, to: int) -> bool {
    &&& from <= to < s.len()
    &&& s[to] == 44
    &&& digits_only(s, from, to)
    &&& from < to
}

/// Bytes `from..to` are optional whitespace then one or more digits.
pub open spec fn digits_only(s: Seq<u8>, from: int, to: int) -> bool {
    exists|w: int|
        {
            &&& from <= w < to <= s.len()
            &&& #[trigger] is_digit(s[w])
            &&& (forall|j: int| from <= j < w ==> is_ws(#[trigger] s[j]))
            &&& (forall|j: int| w <= j < to ==> is_digit(#[trigger] s[j]))
        }
}

/// Whether a style string declares a fill color anywhere.
pub open spec fn spec_style_has_fill(s: Seq<u8>) -> bool {
    exists|i: int| 0 <= i < s.len() && fill_match_at(s, i)
}

/// Tries the fill pattern at one position.
fn fill_match_at_e(s: &[u8], i: usize) -> (r: bool)
    requires
        i < s@.len(),
    ensures
        r == fill_match_at(s@, i as int),
{
    // `fill:`
    if s.len() - i < 5 {
        proof {
            assert(!fill_match_at(s@, i as int));
        }
        return false;
    }
    if !(s[i] == 102 && s[i + 1] == 105 && s[i + 2] == 108 && s[i + 3] == 108 && s[i + 4] == 58) {
        proof {
            assert forall|a: int, b: int, c: int, d: int| !fill_parts(
                s@,
                i as int,
                a,
                b,
                c,
                d,
            ) by {
                if s@.subrange(i as int, i + 5) =~= seq![102u8, 105u8, 108u8, 108u8, 58u8] {
                    assert(s@.subrange(i as int, i + 5)[0] == s@[i as int]);
                    assert(s@.subrange(i as int, i + 5)[1] == s@[i as int + 1]);
                    assert(s@.subrange(i as int, i + 5)[2] == s@[i as int + 2]);
                    assert(s@.subrange(i as int, i + 5)[3] == s@[i as int + 3]);
                    assert(s@.subrange(i as int, i + 5)[4] == s@[i as int + 4]);
                }
            }
            assert(!fill_match_at(s@, i as int));
        }
        return false;
    }
    proof {
        assert(s@.subrange(i as int, i + 5) =~= seq![102u8, 105u8, 108u8, 108u8, 58u8]);
    }
    // whitespace, then `rgb(`
    let mut a: usize = i + 5;
    while a < s.len() && is_ws_e(s[a])
        invariant
            i + 5 <= a <= s@.len(),
            forall|j: int| i + 5 <= j < a ==> is_ws(#[trigger] s@[j]),
        decreases s@.len() - a,
    {
        a += 1;
    }
    if s.len() - a < 4 || !(s[a] == 114 && s[a + 1] == 103 && s[a + 2] == 98 && s[a + 3] == 40) {
        proof {
            lemma_no_match_without_rgb(s@, i as int, a as int);
        }
        return false;
    }
    proof {
        assert(s@.subrange(a as int, a as int + 4) =~= seq![114u8, 103u8, 98u8, 40u8]);
    }
    // first group up to a comma
    let b = match scan_group(s, a + 4, 44) {
        Some(b) => b,
        None => {
            proof {
                lemma_no_match_g1(s@, i as int, a as int);
            }
            return false;
        },
    };
    let c = match scan_group(s, b + 1, 44) {
        Some(c) => c,
        None => {
            proof {
                lemma_no_match_g2(s@, i as int, a as int, b as int);
            }
            return false;
        },
    };
    let d = match scan_group(s, c + 1, 41) {
        Some(d) => d,
        None => {
            proof {
                lemma_no_match_g3(s@, i as int, a as int, b as int, c as int);
            }
            return false;
        },
    };
    if d + 1 < s.len() && s[d + 1] == 59 {
        proof {
            assert(fill_parts(s@, i as int, a as int, b as int, c as int, d as int));
            assert(fill_match_at(s@, i as int));
        }
        true
    } else {
        proof {
            lemma_no_match_semi(s@, i as int, a as int, b as int, c as int, d as int);
        }
        false
    }
}

/// Scans optional whitespace then at least one digit, demanding `close` right
/// after; yields the index of `close`.
fn scan_group(s: &[u8], from: usize, close: u8) -> (r: Option<usize>)
    requires
        from <= s@.len(),
        close == 44 || close == 41,
    ensures
        match r {
            Some(t) => from <= t < s@.len() && s@[t as int] == close && digits_only(
                s@,
                from as int,
                t as int,
            ) && from < t,
            None => forall|t: int|
                from <= t < s@.len() && s@[t] == close ==> !digits_only(s@, from as int, t)
                    || !(from < t),
        },
{
    let mut w: usize = from;
    while w < s.len() && is_ws_e(s[w])
        invariant
            from <= w <= s@.len(),
            forall|j: int| from <= j < w ==> is_ws(#[trigger] s@[j]),
        decreases s@.len() - w,
    {
        w += 1;
    }
    if w >= s.len() || !is_digit_e(s[w]) {
        proof {
            assert forall|t: int|
                from <= t < s@.len() && s@[t] == close implies !digits_only(s@, from as int, t)
                || !(from < t) by {
                if digits_only(s@, from as int, t) && from < t {
                    let w0 = choose|w0: int|
                        {
                            &&& from <= w0 < t
                            &&& #[trigger] is_digit(s@[w0])
                            &&& (forall|j: int| from <= j < w0 ==> is_ws(#[trigger] s@[j]))
                            &&& (forall|j: int| w0 <= j < t ==> is_digit(#[trigger] s@[j]))
                        };
                    assert(is_digit(s@[w0]));
                    if w0 < w as int {
                        assert(is_ws(s@[w0]));
                        assert(!is_digit(s@[w0]));
                    } else {
                        assert((w as int) < s@.len() ==> is_digit(s@[w as int]));
                    }
                }
            }
        }
        return None;
    }
    let ghost w0 = w as int;
    let mut t: usize = w;
    while t < s.len() && is_digit_e(s[t])
        invariant
            w0 <= t <= s@.len(),
            w0 == w as int,
            from <= w as int && (w as int) < s@.len(),
            is_digit(s@[w0]),
            forall|j: int| from <= j < w0 ==> is_ws(#[trigger] s@[j]),
            forall|j: int| w0 <= j < t ==> is_digit(#[trigger] s@[j]),
        decreases s@.len() - t,
    {
        t += 1;
    }
    if t < s.len() && s[t] == close {
        proof {
            assert(digits_only(s@, from as int, t as int));
        }
        Some(t)
    } else {
        proof {
            assert forall|u: int|
                from <= u < s@.len() && s@[u] == close implies !digits_only(s@, from as int, u)
                || !(from < u) by {
                if digits_only(s@, from as int, u) && from < u {
                    let v0 = choose|v0: int|
                        {
                            &&& from <= v0 < u
                            &&& #[trigger] is_digit(s@[v0])
                            &&& (forall|j: int| from <= j < v0 ==> is_ws(#[trigger] s@[j]))
                            &&& (forall|j: int| v0 <= j < u ==> is_digit(#[trigger] s@[j]))
                        };
                    assert(!is_digit(s@[u]) && !is_ws(s@[u]));
                    if u < t as int {
                        assert(is_digit(s@[u]));
                    } else {
                        assert((t as int) < s@.len() ==> !is_digit(s@[t as int]));
                        if v0 <= t as int {
                            assert((t as int) < u ==> is_digit(s@[t as int]));
                        } else {
                            assert(is_ws(s@[t as int]) && is_digit(s@[t as int]));
                        }
                    }
                }
            }
        }
        None
    }
}

/// No match at `i` when, past `fill:` and its whitespace run ending at the
/// first non-whitespace position `a`, the text does not continue `rgb(`
/// with three digit groups and `);`.
proof fn lemma_no_match_without_rgb(s: Seq<u8>, i: int, a: int)
    requires
        0 <= i,
        i + 5 <= a <= s.len(),
        forall|j: int| i + 5 <= j < a ==> is_ws(#[trigger] s[j]),
        a < s.len() ==> !is_ws(s[a]),
        !(a + 4 <= s.len() && s[a] == 114 && s[a + 1] == 103 && s[a + 2] == 98 && s[a + 3] == 40),
    ensures
        !fill_match_at(s, i),
{
    if fill_match_at(s, i) {
        let (a2, b, c, d): (int, int, int, int) = choose|a2: int, b: int, c: int, d: int|
            fill_parts(s, i, a2, b, c, d);
        assert(s.subrange(a2, a2 + 4)[0] == s[a2]);
        assert(s[a2] == 114);
        assert(!is_ws(s[a2]));
        assert(a2 >= a);
        if a2 > a {
            assert(is_ws(s[a]) || a >= s.len());
            assert(a < a2 < s.len());
            assert(a2 <= s.len());
            assert(forall|j: int| i + 5 <= j < a2 ==> is_ws(#[trigger] s[j]));
            assert(is_ws(s[a]));
        }
        assert(a2 == a);
        assert(s.subrange(a, a + 4)[1] == s[a + 1]);
        assert(s.subrange(a, a + 4)[2] == s[a + 2]);
        assert(s.subrange(a, a + 4)[3] == s[a + 3]);
    }
}

/// Two scans of the same group, each ending at its closing byte, end at
/// the same place: the closing byte is neither whitespace nor a digit.
proof fn lemma_group_unique(s: Seq<u8>, from: int, t1: int, t2: int, close: u8)
    requires
        digits_only(s, from, t1),
        digits_only(s, from, t2),
        0 <= t1 < s.len() && s[t1] == close,
        0 <= t2 < s.len() && s[t2] == close,
        !is_ws(close) && !is_digit(close),
    ensures
        t1 == t2,
{
    if t1 < t2 {
        let w = choose|w: int|
            {
                &&& from <= w < t2
                &&& #[trigger] is_digit(s[w])
                &&& (forall|j: int| from <= j < w ==> is_ws(#[trigger] s[j]))
                &&& (forall|j: int| w <= j < t2 ==> is_digit(#[trigger] s[j]))
            };
        assert(from <= t1 < t2);
        if t1 < w {
            assert(is_ws(s[t1]));
        } else {
            assert(is_digit(s[t1]));
        }
    }
    if t2 < t1 {
        let w = choose|w: int|
            {
                &&& from <= w < t1
                &&& #[trigger] is_digit(s[w])
                &&& (forall|j: int| from <= j < w ==> is_ws(#[trigger] s[j]))
                &&& (forall|j: int| w <= j < t1 ==> is_digit(#[trigger] s[j]))
            };
        if t2 < w {
            assert(is_ws(s[t2]));
        } else {
            assert(is_digit(s[t2]));
        }
    }
}

/// The whitespace run past `fill:` pins the position of `rgb(` in any
/// match at `i`.
proof fn lemma_match_fixes_a(s: Seq<u8>, i: int, a: int) -> (parts: (int, int, int))
    requires
        0 <= i,
        i + 5 <= a <= s.len(),
        forall|j: int| i + 5 <= j < a ==> is_ws(#[trigger] s[j]),
        a < s.len() ==> !is_ws(s[a]),
        fill_match_at(s, i),
    ensures
        fill_parts(s, i, a, parts.0, parts.1, parts.2),
{
    let (a2, b, c, d): (int, int, int, int) = choose|a2: int, b: int, c: int, d: int|
        fill_parts(s, i, a2, b, c, d);
    assert(s.subrange(a2, a2 + 4)[0] == s[a2]);
    assert(s[a2] == 114);
    assert(!is_ws(s[a2]));
    if a2 > a {
        assert(is_ws(s[a]));
        assert(s.subrange(a, a + 4) == s.subrange(a, a + 4));
    }
    assert(a2 == a);
    (b, c, d)
}

/// No match at `i` when the first digit group past `rgb(` does not scan.
proof fn lemma_no_match_g1(s: Seq<u8>, i: int, a: int)
    requires
        0 <= i,
        i + 5 <= a <= s.len(),
        forall|j: int| i + 5 <= j < a ==> is_ws(#[trigger] s[j]),
        a < s.len() ==> !is_ws(s[a]),
        forall|t: int|
            a + 4 <= t < s.len() && #[trigger] s[t] == 44 ==> !digits_only(s, a + 4, t) || !(a + 4
                < t),
    ensures
        !fill_match_at(s, i),
{
    if fill_match_at(s, i) {
        let parts = lemma_match_fixes_a(s, i, a);
        let b = parts.0;
        assert(s[b] == 44 && digits_only(s, a + 4, b) && a + 4 < b);
    }
}

/// No match at `i` when the second digit group does not scan, `b` being the
/// end of the first.
proof fn lemma_no_match_g2(s: Seq<u8>, i: int, a: int, b: int)
    requires
        0 <= i,
        i + 5 <= a <= s.len(),
        forall|j: int| i + 5 <= j < a ==> is_ws(#[trigger] s[j]),
        a < s.len() ==> !is_ws(s[a]),
        a + 4 < b < s.len() && s[b] == 44 && digits_only(s, a + 4, b),
        forall|t: int|
            b + 1 <= t < s.len() && #[trigger] s[t] == 44 ==> !digits_only(s, b + 1, t) || !(b + 1
                < t),
    ensures
        !fill_match_at(s, i),
{
    if fill_match_at(s, i) {
        let parts = lemma_match_fixes_a(s, i, a);
        let (b2, c2) = (parts.0, parts.1);
        lemma_group_unique(s, a + 4, b, b2, 44);
        assert(s[c2] == 44 && digits_only(s, b + 1, c2) && b + 1 < c2);
    }
}

/// No match at `i` when the third digit group does not scan, `b` and `c`
/// being the ends of the first two.
proof fn lemma_no_match_g3(s: Seq<u8>, i: int, a: int, b: int, c: int)
    requires
        0 <= i,
        i + 5 <= a <= s.len(),
        forall|j: int| i + 5 <= j < a ==> is_ws(#[trigger] s[j]),
        a < s.len() ==> !is_ws(s[a]),
        a + 4 < b < s.len() && s[b] == 44 && digits_only(s, a + 4, b),
        b + 1 < c < s.len() && s[c] == 44 && digits_only(s, b + 1, c),
        forall|t: int|
            c + 1 <= t < s.len() && #[trigger] s[t] == 41 ==> !digits_only(s, c + 1, t) || !(c + 1
                < t),
    ensures
        !fill_match_at(s, i),
{
    if fill_match_at(s, i) {
        let parts = lemma_match_fixes_a(s, i, a);
        let (b2, c2, d2) = (parts.0, parts.1, parts.2);
        lemma_group_unique(s, a + 4, b, b2, 44);
        lemma_group_unique(s, b + 1, c, c2, 44);
        assert(s[d2] == 41 && digits_only(s, c + 1, d2) && c + 1 < d2);
    }
}

/// No match at `i` when everything scans but the closing `);` is not
/// followed through.
proof fn lemma_no_match_semi(s: Seq<u8>, i: int, a: int, b: int, c: int, d: int)
    requires
        0 <= i,
        i + 5 <= a <= s.len(),
        forall|j: int| i + 5 <= j < a ==> is_ws(#[trigger] s[j]),
        a < s.len() ==> !is_ws(s[a]),
        a + 4 < b < s.len() && s[b] == 44 && digits_only(s, a + 4, b),
        b + 1 < c < s.len() && s[c] == 44 && digits_only(s, b + 1, c),
        c + 1 < d < s.len() && s[d] == 41 && digits_only(s, c + 1, d),
        !(d + 1 < s.len() && s[d + 1] == 59),
    ensures
        !fill_match_at(s, i),
{
    if fill_match_at(s, i) {
        let parts = lemma_match_fixes_a(s, i, a);
        let (b2, c2, d2) = (parts.0, parts.1, parts.2);
        lemma_group_unique(s, a + 4, b, b2, 44);
        lemma_group_unique(s, b + 1, c, c2, 44);
        lemma_group_unique(s, c + 1, d, d2, 41);
    }
}

/// Whether a style declares a fill color: a verified scan for the pattern
/// `fill:` whitespace `rgb(` digits `,` digits `,` digits `);`.
pub fn style_has_fill(s: &[u8]) -> (r: bool)
    ensures
        r == spec_style_has_fill(s@),
{
    let mut i: usize = 0;
    while i < s.len()
        invariant
            0 <= i <= s@.len(),
            forall|j: int| 0 <= j < i ==> !fill_match_at(s@, j),
        decreases s@.len() - i,
    {
        if fill_match_at_e(s, i) {
            return true;
        }
        i += 1;
    }
    false
}

/// A fixed-point coordinate as a whole-unit grid index, clamped into the
/// 0..100 canvas.
pub open spec fn grid_of(v: int) -> int {
    fbound(tdiv(v, FX_ONE as int), 0, 100)
}

/// Executable grid index.
pub fn grid_of_e(v: i128) -> (r: i128)
    requires
        -200_000_000_000_000_000 <= v <= 200_000_000_000_000_000,
    ensures
        r == grid_of(v as int),
        0 <= r <= 100,
{
    let q = tdiv_e(v, FX_ONE);
    fbound_e(q, 0, 100)
}

/// The whole-unit grid cells of the half-open box `gx0..gx1` times
/// `gy0..gy1`, column by column, as canvas points.
pub open spec fn spec_cells(gx0: int, gx1: int, gy0: int, gy1: int) -> Seq<Point>
    decreases gx1 - gx0,
{
    if gx0 >= gx1 {
        Seq::empty()
    } else {
        spec_col(gx0, gy0, gy1) + spec_cells(gx0 + 1, gx1, gy0, gy1)
    }
}

/// One column of grid cells.
pub open spec fn spec_col(gx: int, gy0: int, gy1: int) -> Seq<Point>
    decreases gy1 - gy0,
{
    if gy0 >= gy1 {
        Seq::empty()
    } else {
        seq![Point { x: (gx * FX_ONE) as i128, y: (gy0 * FX_ONE) as i128 }] + spec_col(
            gx,
            gy0 + 1,
            gy1,
        )
    }
}

/// Enumerates the grid cells of a half-open box.
pub fn cells(gx0: i128, gx1: i128, gy0: i128, gy1: i128) -> (r: Vec<Point>)
    requires
        0 <= gx0 <= 101,
        0 <= gx1 <= 101,
        0 <= gy0 <= 101,
        0 <= gy1 <= 101,
    ensures
        r@ =~= spec_cells(gx0 as int, gx1 as int, gy0 as int, gy1 as int),
{
    let mut out: Vec<Point> = Vec::new();
    let mut i: i128 = gx0;
    proof {
        assert(out@ + spec_cells(gx0 as int, gx1 as int, gy0 as int, gy1 as int) =~= spec_cells(
            gx0 as int,
            gx1 as int,
            gy0 as int,
            gy1 as int,
        ));
    }
    while i < gx1
        invariant
            gx0 <= i <= 101,
            gx1 <= 101 ==> i <= 101,
            0 <= i,
            0 <= gy0 <= 101,
            0 <= gy1 <= 101,
            gx1 <= 101,
            spec_cells(gx0 as int, gx1 as int, gy0 as int, gy1 as int) =~= out@ + spec_cells(
                i as int,
                gx1 as int,
                gy0 as int,
                gy1 as int,
            ),
        decreases gx1 - i,
    {
        let mut j: i128 = gy0;
        while j < gy1
            invariant
                gy0 <= j <= 101,
                0 <= j,
                0 <= i <= 101,
                gy1 <= 101,
                spec_cells(gx0 as int, gx1 as int, gy0 as int, gy1 as int) =~= out@ + spec_col(
                    i as int,
                    j as int,
                    gy1 as int,
                ) + spec_cells(i as int + 1, gx1 as int, gy0 as int, gy1 as int),
            decreases gy1 - j,
        {
            out.push(Point { x: i * FX_ONE, y: j * FX_ONE });
            proof {
                assert(spec_col(i as int, j as int, gy1 as int) =~= seq![
                    Point { x: (i as int * FX_ONE) as i128, y: (j as int * FX_ONE) as i128 },
                ] + spec_col(i as int, j as int + 1, gy1 as int));
            }
            j += 1;
        }
        proof {
            assert(spec_col(i as int, j as int, gy1 as int) =~= Seq::<Point>::empty());
        }
        i += 1;
    }
    out
}

/// Least x coordinate of a non-empty point sequence.
pub open spec fn min_x(pts: Seq<Point>) -> int
    recommends
        pts.len() > 0,
    decreases pts.len(),
{
    if pts.len() <= 1 {
        if pts.len() == 1 {
            pts[0].x as int
        } else {
            0
        }
    } else {
        let m = min_x(pts.drop_last());
        if (pts.last().x as int) < m {
            pts.last().x as int
        } else {
            m
        }
    }
}

/// Greatest x coordinate of a non-empty point sequence.
pub open spec fn max_x(pts: Seq<Point>) -> int
    recommends
        pts.len() > 0,
    decreases pts.len(),
{
    if pts.len() <= 1 {
        if pts.len() == 1 {
            pts[0].x as int
        } else {
            0
        }
    } else {
        let m = max_x(pts.drop_last());
        if (pts.last().x as int) > m {
            pts.last().x as int
        } else {
            m
        }
    }
}

/// Least y coordinate of a non-empty point sequence.
pub open spec fn min_y(pts: Seq<Point>) -> int
    recommends
        pts.len() > 0,
    decreases pts.len(),
{
    if pts.len() <= 1 {
        if pts.len() == 1 {
            pts[0].y as int
        } else {
            0
        }
    } else {
        let m = min_y(pts.drop_last());
        if (pts.last().y as int) < m {
            pts.last().y as int
        } else {
            m
        }
    }
}

/// Greatest y coordinate of a non-empty point sequence.
pub open spec fn max_y(pts: Seq<Point>) -> int
    recommends
        pts.len() > 0,
    decreases pts.len(),
{
    if pts.len() <= 1 {
        if pts.len() == 1 {
            pts[0].y as int
        } else {
            0
        }
    } else {
        let m = max_y(pts.drop_last());
        if (pts.last().y as int) > m {
            pts.last().y as int
        } else {
            m
        }
    }
}

/// Every coordinate of a point is inside the operand range.
pub open spec fn pt_in_range(p: Point) -> bool {
    -crate::numparse::OPERAND_MAX <= p.x <= crate::numparse::OPERAND_MAX
        && -crate::numparse::OPERAND_MAX <= p.y <= crate::numparse::OPERAND_MAX
}

/// The fill cells of a flattened outline: every whole-unit cell strictly
/// inside the bounding box of the points, clamped to the canvas.
pub open spec fn spec_bbox_cells(pts: Seq<Point>) -> Seq<Point>
    recommends
        pts.len() > 0,
{
    spec_cells(
        grid_of(min_x(pts)) + 1,
        grid_of(max_x(pts)),
        grid_of(min_y(pts)) + 1,
        grid_of(max_y(pts)),
    )
}

/// Enumerates the bounding-box fill cells of a non-empty outline.
pub fn bbox_fill(pts: &Vec<Point>) -> (r: Vec<Point>)
    requires
        pts@.len() > 0,
        forall|j: int| 0 <= j < pts@.len() ==> pt_in_range(#[trigger] pts@[j]),
    ensures
        r@ =~= spec_bbox_cells(pts@),
{
    let mut mnx: i128 = pts[0].x;
    let mut mxx: i128 = pts[0].x;
    let mut mny: i128 = pts[0].y;
    let mut mxy: i128 = pts[0].y;
    let mut i: usize = 1;
    proof {
        assert(pts@.take(1) =~= seq![pts@[0]]);
    }
    while i < pts.len()
        invariant
            1 <= i <= pts@.len(),
            pts@.len() > 0,
            forall|j: int| 0 <= j < pts@.len() ==> pt_in_range(#[trigger] pts@[j]),
            mnx == min_x(pts@.take(i as int)),
            mxx == max_x(pts@.take(i as int)),
            mny == min_y(pts@.take(i as int)),
            mxy == max_y(pts@.take(i as int)),
            -crate::numparse::OPERAND_MAX <= mnx <= crate::numparse::OPERAND_MAX,
            -crate::numparse::OPERAND_MAX <= mxx <= crate::numparse::OPERAND_MAX,
            -crate::numparse::OPERAND_MAX <= mny <= crate::numparse::OPERAND_MAX,
            -crate::numparse::OPERAND_MAX <= mxy <= crate::numparse::OPERAND_MAX,
        decreases pts@.len() - i,
    {
        proof {
            assert(pts@.take(i as int + 1).drop_last() =~= pts@.take(i as int));
            assert(pts@.take(i as int + 1).last() == pts@[i as int]);
        }
        let p = pts[i];
        if p.x < mnx {
            mnx = p.x;
        }
        if p.x > mxx {
            mxx = p.x;
        }
        if p.y < mny {
            mny = p.y;
        }
        if p.y > mxy {
            mxy = p.y;
        }
        i += 1;
    }
    proof {
        assert(pts@.take(pts@.len() as int) =~= pts@);
    }
    let gx0 = grid_of_e(mnx) + 1;
    let gx1 = grid_of_e(mxx);
    let gy0 = grid_of_e(mny) + 1;
    let gy1 = grid_of_e(mxy);
    cells(gx0, gx1, gy0, gy1)
}

/// The fill cells of a rectangle at origin `(x, y)` with extent `(w, h)`,
/// in unflipped canvas space.
pub open spec fn spec_rect_cells(x: int, y: int, w: int, h: int) -> Seq<Point> {
    spec_cells(grid_of(x), grid_of(x + w), grid_of(y), grid_of(y + h))
}

/// Enumerates the fill cells of a rectangle.
pub fn rect_cells(x: i128, y: i128, w: i128, h: i128) -> (r: Vec<Point>)
    requires
        -crate::numparse::OPERAND_MAX <= x <= crate::numparse::OPERAND_MAX,
        -crate::numparse::OPERAND_MAX <= y <= crate::numparse::OPERAND_MAX,
        -crate::numparse::OPERAND_MAX <= w <= crate::numparse::OPERAND_MAX,
        -crate::numparse::OPERAND_MAX <= h <= crate::numparse::OPERAND_MAX,
    ensures
        r@ =~= spec_rect_cells(x as int, y as int, w as int, h as int),
{
    let gx0 = grid_of_e(x);
    let gx1 = grid_of_e(x + w);
    let gy0 = grid_of_e(y);
    let gy1 = grid_of_e(y + h);
    cells(gx0, gx1, gy0, gy1)
}

/// An empty rectangle — zero or negative width or height — has no fill
/// cells at all.
pub proof fn lemma_empty_rect_no_fill(x: int, y: int, w: int, h: int)
    requires
        w <= 0 || h <= 0,
    ensures
        spec_rect_cells(x, y, w, h) =~= Seq::<Point>::empty(),
{
    if w <= 0 {
        lemma_grid_monotone(x + w, x);
        lemma_cells_empty(grid_of(x), grid_of(x + w), grid_of(y), grid_of(y + h));
    } else {
        lemma_grid_monotone(y + h, y);
        lemma_cells_col_empty(grid_of(x), grid_of(x + w), grid_of(y), grid_of(y + h));
    }
}

/// The grid index is monotone.
pub proof fn lemma_grid_monotone(a: int, b: int)
    requires
        a <= b,
    ensures
        grid_of(a) <= grid_of(b),
{
    if 0 <= a {
        vstd::arithmetic::div_mod::lemma_div_is_ordered(a, b, FX_ONE as int);
        vstd::arithmetic::div_mod::lemma_div_pos_is_pos(a, FX_ONE as int);
    } else if b <= 0 {
        vstd::arithmetic::div_mod::lemma_div_is_ordered(-b, -a, FX_ONE as int);
        vstd::arithmetic::div_mod::lemma_div_pos_is_pos(-b, FX_ONE as int);
    } else {
        vstd::arithmetic::div_mod::lemma_div_pos_is_pos(-a, FX_ONE as int);
        vstd::arithmetic::div_mod::lemma_div_pos_is_pos(b, FX_ONE as int);
    }
}

/// A box with no columns has no cells.
proof fn lemma_cells_empty(gx0: int, gx1: int, gy0: int, gy1: int)
    requires
        gx1 <= gx0,
    ensures
        spec_cells(gx0, gx1, gy0, gy1) =~= Seq::<Point>::empty(),
{
}

/// A box with empty columns has no cells.
proof fn lemma_cells_col_empty(gx0: int, gx1: int, gy0: int, gy1: int)
    requires
        gy1 <= gy0,
    ensures
        spec_cells(gx0, gx1, gy0, gy1) =~= Seq::<Point>::empty(),
    decreases gx1 - gx0,
{
    if gx0 < gx1 {
        lemma_cells_col_empty(gx0 + 1, gx1, gy0, gy1);
    }
}

} // verus!
