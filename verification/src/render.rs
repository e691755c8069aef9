//! The renderable collector: the top of the pipeline.
//!
//! A document renders to an ordered list of primitives — `(points, style,
//! is_fill)` — one or two per drawable element, in document order, which is
//! the z-order.  A `rect` becomes its four-corner outline (closed) and,
//! when its style declares a fill color, its fill cells; a `line` becomes a
//! two-point segment; a `path` is interpreted and tessellated.  An element
//! that fails to parse is dropped and its error recorded; only a missing or
//! invalid `viewBox` aborts the whole document.  Every primitive's point
//! list is non-empty.

use vstd::prelude::*;
use crate::fx::{tdiv, fdiv, fclamp, fdiv_e, fclamp_e, tdiv_e, lemma_fdiv_le_exact};
use crate::numparse::{
    OPERAND_MAX, number_ok, number_val, parse_fx, split_ws, spec_split_ws, bytes_eq,
};
use crate::scan::{
    Element, SpecElem, spec_tags, spec_elems, spec_elem_of, spec_viewbox, scan_tags, tag_name_e,
    tag_attrs_e, attrs_get, lit_svg, lit_path, lit_line, lit_rect, lit_viewbox, lit_d, lit_style,
    lit_transform, lit_x1, lit_y1, lit_x2, lit_y2, lit_x, lit_y, lit_width, lit_height,
    VIEWBOX_MIN,
};
use crate::path::{spec_draw_path, draw_path, mk_pt, FLIP_FX};
use crate::fill::{spec_style_has_fill, style_has_fill, spec_rect_cells, rect_cells};
use crate::transform::SCALE_MIN;
use crate::SvgError;
use crate::Point;

verus! {

/// One drawable unit: an ordered point cloud, the style text it came with,
/// and whether it is a fill region rather than an outline.
pub struct RenderPrimitive {
    pub points: Vec<Point>,
    pub style: Vec<u8>,
    pub is_fill: bool,
}

/// The spec-level shadow of a primitive.
#[verifier::ext_equal]
pub ghost struct SpecPrim {
    pub points: Seq<Point>,
    pub style: Seq<u8>,
    pub is_fill: bool,
}

impl RenderPrimitive {
    /// The primitive as its spec-level shadow.
    pub open spec fn view_of(&self) -> SpecPrim {
        SpecPrim { points: self.points@, style: self.style@, is_fill: self.is_fill }
    }
}

/// Everything a document renders to: the primitives in z-order, and the
/// error of each dropped element, in document order.
pub struct RenderOutput {
    pub primitives: Vec<RenderPrimitive>,
    pub dropped: Vec<SvgError>,
}

/// The per-axis normalization scales of a viewBox: a hundredth of each
/// extent.
pub open spec fn spec_scale_of(v: int) -> int {
    tdiv(v, 100)
}

/// What a `line` element renders to: its two endpoints, scaled and
/// flipped.
pub open spec fn spec_line_prims(
    x1: Seq<u8>,
    y1: Seq<u8>,
    x2: Seq<u8>,
    y2: Seq<u8>,
    style: Seq<u8>,
    sx: int,
    sy: int,
) -> Result<Seq<SpecPrim>, SvgError> {
    if number_ok(x1) && number_ok(y1) && number_ok(x2) && number_ok(y2) {
        let p1 = mk_pt(fdiv(number_val(x1), sx), FLIP_FX - fdiv(number_val(y1), sy));
        let p2 = mk_pt(fdiv(number_val(x2), sx), FLIP_FX - fdiv(number_val(y2), sy));
        Ok(seq![SpecPrim { points: seq![p1, p2], style: style, is_fill: false }])
    } else {
        Err(SvgError::NumericParseError)
    }
}

/// What a `rect` element renders to: its closed four-corner outline and,
/// for a fill-styled rectangle with interior cells, those cells.
pub open spec fn spec_rect_prims(
    x: Seq<u8>,
    y: Seq<u8>,
    w: Seq<u8>,
    h: Seq<u8>,
    style: Seq<u8>,
    sx: int,
    sy: int,
) -> Result<Seq<SpecPrim>, SvgError> {
    if number_ok(x) && number_ok(y) && number_ok(w) && number_ok(h) {
        let xs = fdiv(number_val(x), sx);
        let ys = fdiv(number_val(y), sy);
        let ws = fdiv(number_val(w), sx);
        let hs = fdiv(number_val(h), sy);
        let outline = seq![
            mk_pt(xs, FLIP_FX - ys),
            mk_pt(xs + ws, FLIP_FX - ys),
            mk_pt(xs + ws, FLIP_FX - (ys + hs)),
            mk_pt(xs, FLIP_FX - (ys + hs)),
            mk_pt(xs, FLIP_FX - ys),
        ];
        let stroke = SpecPrim { points: outline, style: style, is_fill: false };
        let cells = spec_rect_cells(
            fclamp(xs, OPERAND_MAX as int),
            fclamp(ys, OPERAND_MAX as int),
            fclamp(ws, OPERAND_MAX as int),
            fclamp(hs, OPERAND_MAX as int),
        );
        if spec_style_has_fill(style) && cells.len() > 0 {
            Ok(seq![stroke, SpecPrim { points: cells, style: style, is_fill: true }])
        } else {
            Ok(seq![stroke])
        }
    } else {
        Err(SvgError::NumericParseError)
    }
}

/// What one element renders to.
#[verifier::opaque]
pub open spec fn spec_elem_prims(e: SpecElem, sx: int, sy: int) -> Result<Seq<SpecPrim>, SvgError> {
    match e {
        SpecElem::Path { d, style, tr } => match spec_draw_path(d, tr, style, sx, sy) {
            Err(err) => Err(err),
            Ok(pf) => {
                let stroke: Seq<SpecPrim> = if pf.0.len() > 0 {
                    seq![SpecPrim { points: pf.0, style: style, is_fill: false }]
                } else {
                    Seq::empty()
                };
                let fillp: Seq<SpecPrim> = match pf.1 {
                    Some(f) => if f.len() > 0 {
                        seq![SpecPrim { points: f, style: style, is_fill: true }]
                    } else {
                        Seq::empty()
                    },
                    None => Seq::empty(),
                };
                Ok(stroke + fillp)
            },
        },
        SpecElem::Line { x1, y1, x2, y2, style } => spec_line_prims(x1, y1, x2, y2, style, sx, sy),
        SpecElem::Rect { x, y, w, h, style } => spec_rect_prims(x, y, w, h, style, sx, sy),
    }
}

/// The primitives and dropped-element errors of an element list.
pub open spec fn spec_render_elems(es: Seq<SpecElem>, sx: int, sy: int) -> (Seq<SpecPrim>, Seq<
    SvgError,
>)
    decreases es.len(),
{
    if es.len() == 0 {
        (Seq::empty(), Seq::empty())
    } else {
        let rest = spec_render_elems(es.skip(1), sx, sy);
        match spec_elem_prims(es[0], sx, sy) {
            Ok(ps) => (ps + rest.0, rest.1),
            Err(e) => (rest.0, seq![e] + rest.1),
        }
    }
}

/// What a whole document renders to: `MalformedDocument` without a usable
/// `viewBox`, else the primitives of its elements in document order plus
/// the errors of the dropped ones.
pub open spec fn spec_render(s: Seq<u8>) -> Result<(Seq<SpecPrim>, Seq<SvgError>), SvgError> {
    let tags = spec_tags(s);
    match spec_viewbox(tags) {
        None => Err(SvgError::MalformedDocument),
        Some(wh) => {
            if wh.0 < VIEWBOX_MIN || wh.1 < VIEWBOX_MIN {
                Err(SvgError::MalformedDocument)
            } else {
                Ok(
                    spec_render_elems(
                        spec_elems(tags),
                        spec_scale_of(wh.0),
                        spec_scale_of(wh.1),
                    ),
                )
            }
        },
    }
}

/// Classifies one tag as a drawable element.
fn elem_of_e(tag: &[u8]) -> (r: Option<Element>)
    ensures
        match r {
            Some(e) => spec_elem_of(tag@) == Some(e.view_of()),
            None => spec_elem_of(tag@) is None,
        },
{
    let name = tag_name_e(tag);
    let kw_path: [u8; 4] = [112, 97, 116, 104];
    let kw_line: [u8; 4] = [108, 105, 110, 101];
    let kw_rect: [u8; 4] = [114, 101, 99, 116];
    proof {
        assert(kw_path@ =~= lit_path());
        assert(kw_line@ =~= lit_line());
        assert(kw_rect@ =~= lit_rect());
    }
    if bytes_eq(name.as_slice(), kw_path.as_slice()) {
        let attrs = tag_attrs_e(tag);
        let kw_d: [u8; 1] = [100];
        let kw_style: [u8; 5] = [115, 116, 121, 108, 101];
        let kw_tr: [u8; 9] = [116, 114, 97, 110, 115, 102, 111, 114, 109];
        proof {
            assert(kw_d@ =~= lit_d());
            assert(kw_style@ =~= lit_style());
            assert(kw_tr@ =~= lit_transform());
        }
        Some(
            Element::PathElem {
                d: attrs_get(&attrs, kw_d.as_slice()),
                style: attrs_get(&attrs, kw_style.as_slice()),
                transform: attrs_get(&attrs, kw_tr.as_slice()),
            },
        )
    } else if bytes_eq(name.as_slice(), kw_line.as_slice()) {
        let attrs = tag_attrs_e(tag);
        let kw_x1: [u8; 2] = [120, 49];
        let kw_y1: [u8; 2] = [121, 49];
        let kw_x2: [u8; 2] = [120, 50];
        let kw_y2: [u8; 2] = [121, 50];
        let kw_style: [u8; 5] = [115, 116, 121, 108, 101];
        proof {
            assert(kw_x1@ =~= lit_x1());
            assert(kw_y1@ =~= lit_y1());
            assert(kw_x2@ =~= lit_x2());
            assert(kw_y2@ =~= lit_y2());
            assert(kw_style@ =~= lit_style());
        }
        Some(
            Element::LineElem {
                x1: attrs_get(&attrs, kw_x1.as_slice()),
                y1: attrs_get(&attrs, kw_y1.as_slice()),
                x2: attrs_get(&attrs, kw_x2.as_slice()),
                y2: attrs_get(&attrs, kw_y2.as_slice()),
                style: attrs_get(&attrs, kw_style.as_slice()),
            },
        )
    } else if bytes_eq(name.as_slice(), kw_rect.as_slice()) {
        let attrs = tag_attrs_e(tag);
        let kw_x: [u8; 1] = [120];
        let kw_y: [u8; 1] = [121];
        let kw_w: [u8; 5] = [119, 105, 100, 116, 104];
        let kw_h: [u8; 6] = [104, 101, 105, 103, 104, 116];
        let kw_style: [u8; 5] = [115, 116, 121, 108, 101];
        proof {
            assert(kw_x@ =~= lit_x());
            assert(kw_y@ =~= lit_y());
            assert(kw_w@ =~= lit_width());
            assert(kw_h@ =~= lit_height());
            assert(kw_style@ =~= lit_style());
        }
        Some(
            Element::RectElem {
                x: attrs_get(&attrs, kw_x.as_slice()),
                y: attrs_get(&attrs, kw_y.as_slice()),
                w: attrs_get(&attrs, kw_w.as_slice()),
                h: attrs_get(&attrs, kw_h.as_slice()),
                style: attrs_get(&attrs, kw_style.as_slice()),
            },
        )
    } else {
        None
    }
}

/// Finds the canvas extent: the first `svg` tag's `viewBox`.
fn find_viewbox(tags: &Vec<Vec<u8>>) -> (r: Option<(i128, i128)>)
    ensures
        match r {
            Some(wh) => spec_viewbox(tags.deep_view()) == Some((wh.0 as int, wh.1 as int))
                && -OPERAND_MAX < wh.0 < OPERAND_MAX && -OPERAND_MAX < wh.1 < OPERAND_MAX,
            None => spec_viewbox(tags.deep_view()) is None,
        },
{
    let ghost td = tags.deep_view();
    let mut k: usize = 0;
    proof {
        assert(td.skip(0) =~= td);
    }
    while k < tags.len()
        invariant
            0 <= k <= tags@.len(),
            td == tags.deep_view(),
            td.len() == tags@.len(),
            forall|j: int| 0 <= j < td.len() ==> td[j] == #[trigger] tags@[j]@,
            spec_viewbox(td) == spec_viewbox(td.skip(k as int)),
        decreases tags@.len() - k,
    {
        proof {
            assert(td.skip(k as int)[0] == td[k as int]);
            assert(td.skip(k as int).skip(1) =~= td.skip(k as int + 1));
        }
        let kw_svg: [u8; 3] = [115, 118, 103];
        let kw_vb: [u8; 7] = [118, 105, 101, 119, 66, 111, 120];
        proof {
            assert(kw_svg@ =~= lit_svg());
            assert(kw_vb@ =~= lit_viewbox());
        }
        let name = tag_name_e(tags[k].as_slice());
        if bytes_eq(name.as_slice(), kw_svg.as_slice()) {
            let attrs = tag_attrs_e(tags[k].as_slice());
            let vb = attrs_get(&attrs, kw_vb.as_slice());
            let fields = split_ws(vb.as_slice());
            proof {
                assert(fields.deep_view() =~~= spec_split_ws(vb@));
                assert(fields.deep_view().len() == fields@.len());
                assert(forall|j: int|
                    0 <= j < fields@.len() ==> fields.deep_view()[j] == #[trigger] fields@[j]@);
            }
            if fields.len() < 4 {
                return None;
            }
            let w = match parse_fx(fields[2].as_slice()) {
                Ok(v) => v,
                Err(_) => {
                    return None;
                },
            };
            let h = match parse_fx(fields[3].as_slice()) {
                Ok(v) => v,
                Err(_) => {
                    return None;
                },
            };
            return Some((w, h));
        }
        k += 1;
    }
    proof {
        assert(td.skip(k as int) =~= Seq::<Seq<u8>>::empty());
    }
    None
}

/// Renders one element into zero, one or two primitives.
#[verifier::rlimit(100)]
fn render_elem(e: &Element, sx: i128, sy: i128) -> (r: Result<Vec<RenderPrimitive>, SvgError>)
    requires
        SCALE_MIN <= sx <= OPERAND_MAX,
        SCALE_MIN <= sy <= OPERAND_MAX,
    ensures
        match r {
            Ok(ps) => spec_elem_prims(e.view_of(), sx as int, sy as int) matches Ok(sp) && ps@
                .map_values(|p: RenderPrimitive| p.view_of()) =~~= sp,
            Err(err) => spec_elem_prims(e.view_of(), sx as int, sy as int) == Err::<
                Seq<SpecPrim>,
                SvgError,
            >(err),
        },
{
    proof {
        reveal(spec_elem_prims);
    }
    match e {
        Element::PathElem { d, style, transform } => {
            let pf = match draw_path(
                d.as_slice(),
                transform.as_slice(),
                style.as_slice(),
                sx,
                sy,
            ) {
                Ok(pf) => pf,
                Err(err) => {
                    return Err(err);
                },
            };
            let (pts, fill) = pf;
            let mut out: Vec<RenderPrimitive> = Vec::new();
            if pts.len() > 0 {
                let style_copy = crate::numparse::sub_vec(style.as_slice(), 0, style.len());
                out.push(RenderPrimitive { points: pts, style: style_copy, is_fill: false });
            }
            match fill {
                Some(f) => {
                    if f.len() > 0 {
                        let style_copy = crate::numparse::sub_vec(
                            style.as_slice(),
                            0,
                            style.len(),
                        );
                        out.push(RenderPrimitive { points: f, style: style_copy, is_fill: true });
                    }
                },
                None => {},
            }
            proof {
                let sp = spec_elem_prims(e.view_of(), sx as int, sy as int).unwrap();
                assert(out@.map_values(|p: RenderPrimitive| p.view_of()) =~~= sp);
            }
            Ok(out)
        },
        Element::LineElem { x1, y1, x2, y2, style } => {
            let v1 = match parse_fx(x1.as_slice()) {
                Ok(v) => v,
                Err(err) => {
                    return Err(err);
                },
            };
            let w1 = match parse_fx(y1.as_slice()) {
                Ok(v) => v,
                Err(err) => {
                    return Err(err);
                },
            };
            let v2 = match parse_fx(x2.as_slice()) {
                Ok(v) => v,
                Err(err) => {
                    return Err(err);
                },
            };
            let w2 = match parse_fx(y2.as_slice()) {
                Ok(v) => v,
                Err(err) => {
                    return Err(err);
                },
            };
            proof {
                lemma_fdiv_le_exact(v1 as int, sx as int, OPERAND_MAX as int, SCALE_MIN as int,
                    1_000_000_000_000_000_000_000);
                lemma_fdiv_le_exact(w1 as int, sy as int, OPERAND_MAX as int, SCALE_MIN as int,
                    1_000_000_000_000_000_000_000);
                lemma_fdiv_le_exact(v2 as int, sx as int, OPERAND_MAX as int, SCALE_MIN as int,
                    1_000_000_000_000_000_000_000);
                lemma_fdiv_le_exact(w2 as int, sy as int, OPERAND_MAX as int, SCALE_MIN as int,
                    1_000_000_000_000_000_000_000);
            }
            let p1 = Point {
                x: fclamp_e(fdiv_e(v1, sx), OPERAND_MAX),
                y: fclamp_e(FLIP_FX - fdiv_e(w1, sy), OPERAND_MAX),
            };
            let p2 = Point {
                x: fclamp_e(fdiv_e(v2, sx), OPERAND_MAX),
                y: fclamp_e(FLIP_FX - fdiv_e(w2, sy), OPERAND_MAX),
            };
            let mut pts: Vec<Point> = Vec::new();
            pts.push(p1);
            pts.push(p2);
            let style_copy = crate::numparse::sub_vec(style.as_slice(), 0, style.len());
            let mut out: Vec<RenderPrimitive> = Vec::new();
            out.push(RenderPrimitive { points: pts, style: style_copy, is_fill: false });
            proof {
                let sp = spec_elem_prims(e.view_of(), sx as int, sy as int).unwrap();
                assert(out@[0].view_of().points =~= sp[0].points);
                assert(out@.map_values(|p: RenderPrimitive| p.view_of()) =~~= sp);
            }
            Ok(out)
        },
        Element::RectElem { x, y, w, h, style } => {
            let xv = match parse_fx(x.as_slice()) {
                Ok(v) => v,
                Err(err) => {
                    return Err(err);
                },
            };
            let yv = match parse_fx(y.as_slice()) {
                Ok(v) => v,
                Err(err) => {
                    return Err(err);
                },
            };
            let wv = match parse_fx(w.as_slice()) {
                Ok(v) => v,
                Err(err) => {
                    return Err(err);
                },
            };
            let hv = match parse_fx(h.as_slice()) {
                Ok(v) => v,
                Err(err) => {
                    return Err(err);
                },
            };
            proof {
                lemma_fdiv_le_exact(xv as int, sx as int, OPERAND_MAX as int, SCALE_MIN as int,
                    1_000_000_000_000_000_000_000);
                lemma_fdiv_le_exact(yv as int, sy as int, OPERAND_MAX as int, SCALE_MIN as int,
                    1_000_000_000_000_000_000_000);
                lemma_fdiv_le_exact(wv as int, sx as int, OPERAND_MAX as int, SCALE_MIN as int,
                    1_000_000_000_000_000_000_000);
                lemma_fdiv_le_exact(hv as int, sy as int, OPERAND_MAX as int, SCALE_MIN as int,
                    1_000_000_000_000_000_000_000);
            }
            let xs = fdiv_e(xv, sx);
            let ys = fdiv_e(yv, sy);
            let ws = fdiv_e(wv, sx);
            let hs = fdiv_e(hv, sy);
            let mut pts: Vec<Point> = Vec::new();
            pts.push(
                Point { x: fclamp_e(xs, OPERAND_MAX), y: fclamp_e(FLIP_FX - ys, OPERAND_MAX) },
            );
            pts.push(
                Point {
                    x: fclamp_e(xs + ws, OPERAND_MAX),
                    y: fclamp_e(FLIP_FX - ys, OPERAND_MAX),
                },
            );
            pts.push(
                Point {
                    x: fclamp_e(xs + ws, OPERAND_MAX),
                    y: fclamp_e(FLIP_FX - (ys + hs), OPERAND_MAX),
                },
            );
            pts.push(
                Point {
                    x: fclamp_e(xs, OPERAND_MAX),
                    y: fclamp_e(FLIP_FX - (ys + hs), OPERAND_MAX),
                },
            );
            pts.push(
                Point { x: fclamp_e(xs, OPERAND_MAX), y: fclamp_e(FLIP_FX - ys, OPERAND_MAX) },
            );
            let style_copy = crate::numparse::sub_vec(style.as_slice(), 0, style.len());
            let mut out: Vec<RenderPrimitive> = Vec::new();
            out.push(RenderPrimitive { points: pts, style: style_copy, is_fill: false });
            let has_fill = style_has_fill(style.as_slice());
            if has_fill {
                let cells = rect_cells(
                    fclamp_e(xs, OPERAND_MAX),
                    fclamp_e(ys, OPERAND_MAX),
                    fclamp_e(ws, OPERAND_MAX),
                    fclamp_e(hs, OPERAND_MAX),
                );
                if cells.len() > 0 {
                    let style_copy2 = crate::numparse::sub_vec(style.as_slice(), 0, style.len());
                    out.push(
                        RenderPrimitive { points: cells, style: style_copy2, is_fill: true },
                    );
                }
            }
            proof {
                let sp = spec_elem_prims(e.view_of(), sx as int, sy as int).unwrap();
                assert(out@[0].view_of().points =~= sp[0].points);
                if out@.len() == 2 {
                    assert(out@[1].view_of().points =~= sp[1].points);
                }
                assert(out@.map_values(|p: RenderPrimitive| p.view_of()) =~~= sp);
            }
            Ok(out)
        },
    }
}

/// One step of the element fold: how the primitives and errors of the
/// tail at `k` decompose into tag `k`'s own and the rest.
proof fn lemma_render_elems_step(td: Seq<Seq<u8>>, k: int, sx: int, sy: int)
    requires
        0 <= k < td.len(),
    ensures
        ({
            let rest_old = spec_render_elems(spec_elems(td.skip(k)), sx, sy);
            let rest_new = spec_render_elems(spec_elems(td.skip(k + 1)), sx, sy);
            match spec_elem_of(td[k]) {
                Some(ev) => match spec_elem_prims(ev, sx, sy) {
                    Ok(ps) => rest_old.0 =~~= ps + rest_new.0 && rest_old.1 =~= rest_new.1,
                    Err(e) => rest_old.0 =~~= rest_new.0 && rest_old.1 =~= seq![e] + rest_new.1,
                },
                None => rest_old.0 =~~= rest_new.0 && rest_old.1 =~= rest_new.1,
            }
        }),
{
    assert(td.skip(k)[0] == td[k]);
    assert(td.skip(k).skip(1) =~= td.skip(k + 1));
    match spec_elem_of(td[k]) {
        Some(ev) => {
            assert(spec_elems(td.skip(k)) =~= seq![ev] + spec_elems(td.skip(k + 1)));
            let es = seq![ev] + spec_elems(td.skip(k + 1));
            assert(es[0] == ev);
            assert(es.skip(1) =~= spec_elems(td.skip(k + 1)));
        },
        None => {
            assert(spec_elems(td.skip(k)) =~= spec_elems(td.skip(k + 1)));
        },
    }
}

/// Renders a whole document: the contract is exactly `spec_render` — the
/// primitives of every element that parses, in document order, and the
/// error of every element that does not.
#[verifier::rlimit(100)]
pub fn render_svg(doc: &[u8]) -> (r: Result<RenderOutput, SvgError>)
    ensures
        match r {
            Ok(ro) => {
                &&& spec_render(doc@) matches Ok(pd)
                &&& ro.primitives@.map_values(|p: RenderPrimitive| p.view_of()) =~~= pd.0
                &&& ro.dropped@ =~= pd.1
            },
            Err(e) => spec_render(doc@) == Err::<(Seq<SpecPrim>, Seq<SvgError>), SvgError>(e) && e
                == SvgError::MalformedDocument,
        },
{
    let tags = scan_tags(doc);
    let ghost td = tags.deep_view();
    proof {
        assert(td =~~= spec_tags(doc@));
        assert(td.len() == tags@.len());
        assert(forall|j: int| 0 <= j < td.len() ==> td[j] == #[trigger] tags@[j]@);
    }
    let wh = match find_viewbox(&tags) {
        Some(wh) => wh,
        None => {
            return Err(SvgError::MalformedDocument);
        },
    };
    if wh.0 < VIEWBOX_MIN || wh.1 < VIEWBOX_MIN {
        return Err(SvgError::MalformedDocument);
    }
    let sx = tdiv_e(wh.0, 100);
    let sy = tdiv_e(wh.1, 100);
    proof {
        crate::fx::lemma_tdiv_abs(wh.0 as int, 100);
        crate::fx::lemma_tdiv_abs(wh.1 as int, 100);
        vstd::arithmetic::div_mod::lemma_div_is_ordered(VIEWBOX_MIN as int, wh.0 as int, 100);
        vstd::arithmetic::div_mod::lemma_div_is_ordered(VIEWBOX_MIN as int, wh.1 as int, 100);
    }
    let mut prims: Vec<RenderPrimitive> = Vec::new();
    let mut dropped: Vec<SvgError> = Vec::new();
    let mut k: usize = 0;
    proof {
        assert(td.skip(0) =~= td);
        assert(spec_elems(td.skip(0)) =~= spec_elems(td));
    }
    while k < tags.len()
        invariant
            0 <= k <= tags@.len(),
            td == tags.deep_view(),
            td.len() == tags@.len(),
            forall|j: int| 0 <= j < td.len() ==> td[j] == #[trigger] tags@[j]@,
            SCALE_MIN <= sx <= OPERAND_MAX,
            SCALE_MIN <= sy <= OPERAND_MAX,
            ({
                let whole = spec_render_elems(spec_elems(td), sx as int, sy as int);
                let rest = spec_render_elems(spec_elems(td.skip(k as int)), sx as int, sy as int);
                whole.0 =~~= prims@.map_values(|p: RenderPrimitive| p.view_of()) + rest.0
                    && whole.1 =~= dropped@ + rest.1
            }),
        decreases tags@.len() - k,
    {
        proof {
            lemma_render_elems_step(td, k as int, sx as int, sy as int);
        }
        let ghost prims_prev = prims@;
        let ghost dropped_prev = dropped@;
        match elem_of_e(tags[k].as_slice()) {
            Some(el) => {
                match render_elem(&el, sx, sy) {
                    Ok(mut ps) => {
                        let ghost ps_vec = ps@;
                        let ghost ps_views = ps@.map_values(
                            |p: RenderPrimitive| p.view_of(),
                        );
                        prims.append(&mut ps);
                        proof {
                            assert(prims@ =~= prims_prev + ps_vec);
                            assert(prims@.map_values(|p: RenderPrimitive| p.view_of())
                                =~~= prims_prev.map_values(|p: RenderPrimitive| p.view_of())
                                + ps_views);
                        }
                    },
                    Err(err) => {
                        dropped.push(err);
                        proof {
                            let rest_new = spec_render_elems(
                                spec_elems(td.skip(k as int + 1)),
                                sx as int,
                                sy as int,
                            );
                            assert(dropped@ =~= dropped_prev.push(err));
                            assert(dropped_prev + (seq![err] + rest_new.1) =~= dropped@
                                + rest_new.1);
                        }
                    },
                }
            },
            None => {},
        }
        k += 1;
    }
    proof {
        assert(td.skip(k as int) =~= Seq::<Seq<u8>>::empty());
        let empty_rest = spec_render_elems(Seq::<SpecElem>::empty(), sx as int, sy as int);
        assert(prims@.map_values(|p: RenderPrimitive| p.view_of()) + empty_rest.0
            =~~= prims@.map_values(|p: RenderPrimitive| p.view_of()));
        assert(dropped@ + empty_rest.1 =~= dropped@);
    }
    Ok(RenderOutput { primitives: prims, dropped })
}

/// The output invariant, per element: every primitive a single element
/// yields has points, and its fill cloud exists only under a style that
/// declares a fill color.
proof fn lemma_elem_prims_invariant(e: SpecElem, sx: int, sy: int)
    ensures
        match spec_elem_prims(e, sx, sy) {
            Ok(ps) => forall|j: int|
                0 <= j < ps.len() ==> (#[trigger] ps[j]).points.len() > 0 && (ps[j].is_fill
                    ==> spec_style_has_fill(ps[j].style)),
            Err(_) => true,
        },
{
    reveal(spec_elem_prims);
}

/// The collection invariant of the pipeline: in everything a document
/// renders to, every primitive's point list is non-empty, and a fill
/// primitive exists only where its style declares a fill color.
pub proof fn lemma_render_output_invariant(s: Seq<u8>)
    ensures
        match spec_render(s) {
            Ok(pd) => forall|j: int|
                0 <= j < pd.0.len() ==> (#[trigger] pd.0[j]).points.len() > 0 && (pd.0[j].is_fill
                    ==> spec_style_has_fill(pd.0[j].style)),
            Err(_) => true,
        },
{
    let tags = spec_tags(s);
    match spec_viewbox(tags) {
        None => {},
        Some(wh) => {
            if wh.0 >= VIEWBOX_MIN && wh.1 >= VIEWBOX_MIN {
                lemma_render_elems_invariant(
                    spec_elems(tags),
                    spec_scale_of(wh.0),
                    spec_scale_of(wh.1),
                );
            }
        },
    }
}

/// The collection invariant, folded over an element list.
proof fn lemma_render_elems_invariant(es: Seq<SpecElem>, sx: int, sy: int)
    ensures
        ({
            let pd = spec_render_elems(es, sx, sy);
            forall|j: int|
                0 <= j < pd.0.len() ==> (#[trigger] pd.0[j]).points.len() > 0 && (pd.0[j].is_fill
                    ==> spec_style_has_fill(pd.0[j].style))
        }),
    decreases es.len(),
{
    if es.len() > 0 {
        lemma_render_elems_invariant(es.skip(1), sx, sy);
        lemma_elem_prims_invariant(es[0], sx, sy);
        let rest = spec_render_elems(es.skip(1), sx, sy);
        match spec_elem_prims(es[0], sx, sy) {
            Ok(ps) => {
                assert forall|j: int|
                    0 <= j < (ps + rest.0).len() implies (#[trigger] (ps + rest.0)[j]).points.len()
                    > 0 && ((ps + rest.0)[j].is_fill ==> spec_style_has_fill(
                    (ps + rest.0)[j].style,
                )) by {
                    if j < ps.len() {
                        assert((ps + rest.0)[j] == ps[j]);
                    } else {
                        assert((ps + rest.0)[j] == rest.0[j - ps.len()]);
                    }
                }
            },
            Err(_) => {},
        }
    }
}

} // verus!
