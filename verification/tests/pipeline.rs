//! The pipeline tests: path interpretation, fill derivation, and whole
//! documents through the renderable collector.

use svgpath::fx::FX_ONE;
use svgpath::path::draw_path;
use svgpath::render::render_svg;
use svgpath::SvgError;

#[test]
fn move_close_emits_the_point_twice() {
    // `M x y Z` yields exactly two emitted points, both the transformed
    // target of the move
    let r = draw_path(b"M 10.0 20.0 Z", b"", b"", FX_ONE, FX_ONE).unwrap();
    let pts = r.0;
    assert_eq!(pts.len(), 2);
    assert_eq!(pts[0], pts[1]);
    assert_eq!(pts[0].x, 10 * FX_ONE);
    assert_eq!(pts[0].y, 80 * FX_ONE);
    assert!(r.1.is_none());
}

#[test]
fn line_segments_accumulate() {
    let r = draw_path(b"M 0.0 0.0 L 10.0 10.0 H 20.0 V 30.0", b"", b"", FX_ONE, FX_ONE)
        .unwrap();
    let pts = r.0;
    assert_eq!(pts.len(), 4);
    assert_eq!(pts[0].x, 0);
    assert_eq!(pts[0].y, 100 * FX_ONE);
    assert_eq!(pts[1].x, 10 * FX_ONE);
    assert_eq!(pts[1].y, 90 * FX_ONE);
    // horizontal and vertical segments keep the other coordinate
    assert_eq!(pts[2].x, 20 * FX_ONE);
    assert_eq!(pts[2].y, 90 * FX_ONE);
    assert_eq!(pts[3].x, 20 * FX_ONE);
    assert_eq!(pts[3].y, 30 * FX_ONE);
}

#[test]
fn quadratic_curve_emits_a_hundred_samples() {
    let r = draw_path(b"M 0.0 100.0 Q 50.0 0.0 100.0 100.0", b"", b"", FX_ONE, FX_ONE)
        .unwrap();
    // one move point plus a hundred curve samples
    assert_eq!(r.0.len(), 101);
    // the first curve sample (t = 0) is the current point
    assert_eq!(r.0[1], r.0[0]);
}

#[test]
fn degenerate_arc_is_an_error() {
    let r = draw_path(
        b"M 1.0 1.0 A 0.0 5.0 0.0 true false 2.0 2.0",
        b"",
        b"",
        FX_ONE,
        FX_ONE,
    );
    assert_eq!(r, Err(SvgError::DegenerateArc));
}

#[test]
fn filled_path_gets_interior_cells() {
    let r = draw_path(
        b"M 10.0 10.0 L 20.0 10.0 L 20.0 20.0 L 10.0 20.0 Z",
        b"",
        b"fill: rgb(1,2,3);",
        FX_ONE,
        FX_ONE,
    )
        .unwrap();
    let fill = r.1.expect("a filled outline yields cells");
    // the outline spans x 10..20, y 80..90: cells strictly inside
    assert_eq!(fill.len(), 81);
    assert_eq!(fill[0].x, 11 * FX_ONE);
    assert_eq!(fill[0].y, 81 * FX_ONE);
    for c in fill.iter() {
        assert!(11 * FX_ONE <= c.x && c.x <= 19 * FX_ONE);
        assert!(81 * FX_ONE <= c.y && c.y <= 89 * FX_ONE);
    }
}

#[test]
fn render_svg_collects_in_document_order() {
    let doc = br#"<svg viewBox="0 0 400 300">
  <path d="M 40.0 30.0 Z" style="stroke: rgb(1,2,3);" transform=""/>
  <line x1="0.0" y1="0.0" x2="400.0" y2="300.0" style="stroke: rgb(9,9,9);"/>
  <rect x="0.0" y="0.0" width="40.0" height="30.0" style="fill: rgb(10,20,30);"/>
</svg>"#;
    let out = render_svg(doc).unwrap();
    assert_eq!(out.dropped.len(), 0);
    assert_eq!(out.primitives.len(), 4);

    // the path: two identical points at (10, 90)
    assert!(!out.primitives[0].is_fill);
    assert_eq!(out.primitives[0].points.len(), 2);
    assert_eq!(out.primitives[0].points[0].x, 10 * FX_ONE);
    assert_eq!(out.primitives[0].points[0].y, 90 * FX_ONE);

    // the line: its endpoints normalized and flipped
    assert!(!out.primitives[1].is_fill);
    assert_eq!(out.primitives[1].points.len(), 2);
    assert_eq!(out.primitives[1].points[0].x, 0);
    assert_eq!(out.primitives[1].points[0].y, 100 * FX_ONE);
    assert_eq!(out.primitives[1].points[1].x, 100 * FX_ONE);
    assert_eq!(out.primitives[1].points[1].y, 0);

    // the rect: a closed outline and a fill cloud
    assert!(!out.primitives[2].is_fill);
    assert_eq!(out.primitives[2].points.len(), 5);
    assert_eq!(out.primitives[2].points[0].x, 0);
    assert_eq!(out.primitives[2].points[0].y, 100 * FX_ONE);
    assert_eq!(out.primitives[2].points[2].x, 10 * FX_ONE);
    assert_eq!(out.primitives[2].points[2].y, 90 * FX_ONE);
    assert!(out.primitives[3].is_fill);
    assert_eq!(out.primitives[3].points.len(), 100);
}

#[test]
fn empty_filled_rect_yields_no_fill_points() {
    // a filled rect with zero width must yield zero fill points
    let doc = br#"<svg viewBox="0 0 100 100"><rect x="5.0" y="5.0" width="0.0" height="30.0" style="fill: rgb(1,2,3);"/></svg>"#;
    let out = render_svg(doc).unwrap();
    assert_eq!(out.dropped.len(), 0);
    // only the outline remains; no fill primitive exists at all
    assert_eq!(out.primitives.len(), 1);
    assert!(!out.primitives[0].is_fill);
}

#[test]
fn missing_viewbox_is_fatal() {
    assert!(matches!(
        render_svg(b"<svg width=\"10\"></svg>"),
        Err(SvgError::MalformedDocument)
    ));
    assert!(matches!(
        render_svg(b"no markup at all"),
        Err(SvgError::MalformedDocument)
    ));
    assert!(matches!(
        render_svg(b"<svg viewBox=\"0 0 abc 300\"></svg>"),
        Err(SvgError::MalformedDocument)
    ));
    assert!(matches!(
        render_svg(b"<svg viewBox=\"0 0\"></svg>"),
        Err(SvgError::MalformedDocument)
    ));
}

#[test]
fn corrupt_element_is_dropped_not_fatal() {
    let doc = br#"<svg viewBox="0 0 100 100">
  <path d="m 1.0 2.0" style="" transform=""/>
  <line x1="1.0" y1="1.0" x2="2.0" y2="2.0" style=""/>
</svg>"#;
    let out = render_svg(doc).unwrap();
    assert_eq!(out.dropped.len(), 1);
    assert_eq!(out.dropped[0], SvgError::UnsupportedCommand);
    assert_eq!(out.primitives.len(), 1);
    assert_eq!(out.primitives[0].points.len(), 2);
}

#[test]
fn transform_attribute_moves_the_path() {
    // translate(-36, 45.5) on (100, 200) with unit scales lands at
    // (64, 245.5); the move then flips y
    let doc = br#"<svg viewBox="0 0 100 100"><path d="M 100.0 200.0" style="" transform="translate(-36.0, 45.5)"/></svg>"#;
    let out = render_svg(doc).unwrap();
    assert_eq!(out.primitives.len(), 1);
    let p = out.primitives[0].points[0];
    assert_eq!(p.x, 64 * FX_ONE);
    assert_eq!(p.y, 100 * FX_ONE - (245 * FX_ONE + 50_000_000_000));
}

#[test]
fn smooth_quad_reflects_the_previous_control() {
    // after `Q`, the `T` control point is the reflection of the previous
    // control through the current point; the midpoint sample is exact
    let r = draw_path(
        b"M 0.0 50.0 Q 25.0 0.0 50.0 50.0 T 100.0 50.0",
        b"",
        b"",
        FX_ONE,
        FX_ONE,
    )
        .unwrap();
    let pts = r.0;
    assert_eq!(pts.len(), 201);
    // the first sample of the smooth curve is the current point
    assert_eq!(pts[101].x, 50 * FX_ONE);
    assert_eq!(pts[101].y, 50 * FX_ONE);
    // its midpoint: quarter start, half reflected control (75, 0),
    // quarter end
    assert_eq!(pts[151].x, 75 * FX_ONE);
    assert_eq!(pts[151].y, 25 * FX_ONE);
}

#[test]
fn smooth_quad_without_history_uses_the_current_point() {
    // a `T` with no preceding quadratic degenerates toward a straight
    // blend from the current point
    let r = draw_path(b"M 10.0 90.0 T 10.0 10.0", b"", b"", FX_ONE, FX_ONE).unwrap();
    let pts = r.0;
    assert_eq!(pts.len(), 101);
    // start = control = end: every sample is that point
    for p in pts.iter() {
        assert_eq!(p.x, 10 * FX_ONE);
        assert_eq!(p.y, 10 * FX_ONE);
    }
}

#[test]
fn render_svg_reads_a_realistic_document() {
    let doc = br#"<?xml version="1.0" encoding="utf-8"?>
<svg viewBox="0 0 100 100" xmlns="http://www.w3.org/2000/svg">
    <path d="M 50.000 0.000 L 50.000 100.000" style="stroke: rgb(0, 0, 0); stroke-width: 1; fill: none;" />
</svg>"#;
    let out = render_svg(doc).unwrap();
    assert_eq!(out.dropped.len(), 0);
    assert_eq!(out.primitives.len(), 1);
    let pts = &out.primitives[0].points;
    assert_eq!(pts.len(), 2);
    assert_eq!(pts[0].x, 50 * FX_ONE);
    assert_eq!(pts[0].y, 100 * FX_ONE);
    assert_eq!(pts[1].x, 50 * FX_ONE);
    assert_eq!(pts[1].y, 0);
}
