//! The geometry tests: the transform evaluator on each of its forms, and
//! elliptical arc tessellation against a reference trajectory.

use svgpath::fx::FX_ONE;
use svgpath::arc::elliptical_arc;
use svgpath::transform::transform;

/// A millionth of a canvas unit, as the comparison tolerance.
const TOL: i128 = 100_000;

fn close(a: i128, b: i128) -> bool {
    (a - b).abs() < TOL
}

#[test]
fn test_elliptical_arc() {
    let start = (300 * FX_ONE, 200 * FX_ONE);
    let radii = (150 * FX_ONE, 150 * FX_ONE);
    let x_axis_rotation = 0;
    let large_arc_flag = true;
    let sweep_flag = false;
    let end = (150 * FX_ONE, 50 * FX_ONE);
    let num_points = 10;

    let result = elliptical_arc(
        start,
        radii,
        x_axis_rotation,
        large_arc_flag,
        sweep_flag,
        end,
        num_points,
    );

    let expected_result: Vec<(i128, i128)> = vec![
        (30000000000000, 20000000000000),
        (40606601717798, 15606601717798),
        (45000000000000, 5000000000000),
        (40606601717798, -5606601717798),
        (30000000000000, -10000000000000),
        (19393398282202, -5606601717798),
        (15000000000000, 5000000000000),
        (19393398282202, 15606601717798),
        (30000000000000, 20000000000000),
        (40606601717798, 15606601717798),
        (45000000000000, 5000000000000),
    ];

    assert_eq!(result.len(), expected_result.len());

    for (point, expected_point) in result.iter().zip(expected_result.iter()) {
        assert!(close(point.x, expected_point.0));
        assert!(close(point.y, expected_point.1));
    }
}

#[test]
fn test_transform() {
    let x: i128 = 100 * FX_ONE;
    let y: i128 = 200 * FX_ONE;
    let transform_str: &[u8] = b"matrix(3, 1, -1, 3, 30, 40)";
    let scales: (i128, i128) = (FX_ONE, FX_ONE);

    let result = transform(x, y, transform_str, scales).unwrap();

    // both outputs are computed from the original pair: 3*100 - 200 + 30
    // and 100 + 3*200 + 40
    let expected_x: i128 = 130 * FX_ONE;
    let expected_y: i128 = 740 * FX_ONE;

    assert!(
        close(result.0, expected_x) && close(result.1, expected_y),
        "Expected: ({}, {}), got: ({}, {})",
        expected_x,
        expected_y,
        result.0,
        result.1
    );
}

#[test]
fn test_transform_rotate() {
    let x: i128 = 100 * FX_ONE;
    let y: i128 = 200 * FX_ONE;
    let transform_str: &[u8] = b"rotate(50)";
    let scales: (i128, i128) = (FX_ONE, FX_ONE);

    let result = transform(x, y, transform_str, scales).unwrap();

    let expected_x: i128 = -8893012765514;
    let expected_y: i128 = 20516196624921;

    assert!(
        close(result.0, expected_x) && close(result.1, expected_y),
        "Expected: ({}, {}), got: ({}, {})",
        expected_x,
        expected_y,
        result.0,
        result.1
    );
}

#[test]
fn test_transform_translate() {
    let x: i128 = 100 * FX_ONE;
    let y: i128 = 200 * FX_ONE;
    let transform_str: &[u8] = b"translate(-36.0, 45.5)";
    let scales: (i128, i128) = (FX_ONE, FX_ONE);

    let result = transform(x, y, transform_str, scales).unwrap();

    let expected_x: i128 = 6400000000000;
    let expected_y: i128 = 24550000000000;

    assert!(
        close(result.0, expected_x) && close(result.1, expected_y),
        "Expected: ({}, {}), got: ({}, {})",
        expected_x,
        expected_y,
        result.0,
        result.1
    );
}

#[test]
fn test_transform_skew_x() {
    let x: i128 = 100 * FX_ONE;
    let y: i128 = 200 * FX_ONE;
    let transform_str: &[u8] = b"skewX(40)";
    let scales: (i128, i128) = (FX_ONE, FX_ONE);

    let result = transform(x, y, transform_str, scales).unwrap();

    let expected_x: i128 = -12344298618478;
    let expected_y: i128 = 200 * FX_ONE;

    assert!(
        close(result.0, expected_x) && close(result.1, expected_y),
        "Expected: ({}, {}), got: ({}, {})",
        expected_x,
        expected_y,
        result.0,
        result.1
    );
}

#[test]
fn test_transform_skew_y() {
    let x: i128 = 100 * FX_ONE;
    let y: i128 = 200 * FX_ONE;
    let transform_str: &[u8] = b"skewY(40)";
    let scales: (i128, i128) = (FX_ONE, FX_ONE);

    let result = transform(x, y, transform_str, scales).unwrap();

    let expected_x: i128 = 100 * FX_ONE;
    let expected_y: i128 = 8827850690761;

    assert!(
        close(result.0, expected_x) && close(result.1, expected_y),
        "Expected: ({}, {}), got: ({}, {})",
        expected_x,
        expected_y,
        result.0,
        result.1
    );
}

#[test]
fn test_transform_scale() {
    let x: i128 = 100 * FX_ONE;
    let y: i128 = 200 * FX_ONE;
    let transform_str: &[u8] = b"scale(1.0, 0.5)";
    let scales: (i128, i128) = (FX_ONE, FX_ONE);

    let result = transform(x, y, transform_str, scales).unwrap();

    let expected_x: i128 = 100 * FX_ONE;
    let expected_y: i128 = 100 * FX_ONE;

    assert!(
        close(result.0, expected_x) && close(result.1, expected_y),
        "Expected: ({}, {}), got: ({}, {})",
        expected_x,
        expected_y,
        result.0,
        result.1
    );
}

#[test]
fn test_transform_unrecognized_is_identity() {
    let result = transform(7 * FX_ONE, 9 * FX_ONE, b"spin(45)", (FX_ONE, FX_ONE)).unwrap();
    assert_eq!(result, (7 * FX_ONE, 9 * FX_ONE));
    let empty = transform(7 * FX_ONE, 9 * FX_ONE, b"", (FX_ONE, FX_ONE)).unwrap();
    assert_eq!(empty, (7 * FX_ONE, 9 * FX_ONE));
}

#[test]
fn test_transform_malformed_operand() {
    let err = transform(FX_ONE, FX_ONE, b"matrix(3, 1, -1, 3, 30)", (FX_ONE, FX_ONE));
    assert_eq!(err, Err(svgpath::SvgError::NumericParseError));
    let err2 = transform(FX_ONE, FX_ONE, b"rotate(abc)", (FX_ONE, FX_ONE));
    assert_eq!(err2, Err(svgpath::SvgError::NumericParseError));
}

#[test]
fn test_quadratic_degenerate_collapse() {
    // a quadratic curve whose start, control and end coincide samples to
    // that point at every step
    let p = 37 * FX_ONE + 123;
    let mut i: i128 = 0;
    while i <= 100 {
        assert_eq!(svgpath::bezier::quad_coord(p, p, p, i), p);
        i += 1;
    }
}

#[test]
fn test_cubic_endpoints() {
    let p0 = 3 * FX_ONE;
    let p1 = 50 * FX_ONE;
    let p2 = -20 * FX_ONE;
    let p3 = 90 * FX_ONE + 55;
    assert_eq!(svgpath::bezier::cubic_coord(p0, p1, p2, p3, 0), p0);
    assert_eq!(svgpath::bezier::cubic_coord(p0, p1, p2, p3, 100), p3);
}
