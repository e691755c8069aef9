//! The lexical tests: the decimal reader, the flag reader, and the path
//! command grammar.

use svgpath::fx::FX_ONE;
use svgpath::numparse::{parse_fx, parse_flag};
use svgpath::path::{parse_path, PathCommand};
use svgpath::SvgError;

#[test]
fn parse_fx_reads_plain_decimals() {
    assert_eq!(parse_fx(b"0"), Ok(0));
    assert_eq!(parse_fx(b"150"), Ok(150 * FX_ONE));
    assert_eq!(parse_fx(b"123.45"), Ok(123 * FX_ONE + 45_000_000_000));
    assert_eq!(parse_fx(b"-36.0"), Ok(-36 * FX_ONE));
    assert_eq!(parse_fx(b"+45.5"), Ok(45 * FX_ONE + 50_000_000_000));
    assert_eq!(parse_fx(b".5"), Ok(50_000_000_000));
    assert_eq!(parse_fx(b"5."), Ok(5 * FX_ONE));
    // fraction digits beyond the scale are truncated
    assert_eq!(parse_fx(b"0.000000000001"), Ok(0));
}

#[test]
fn parse_fx_rejects_what_is_not_a_number() {
    assert_eq!(parse_fx(b""), Err(SvgError::NumericParseError));
    assert_eq!(parse_fx(b"-"), Err(SvgError::NumericParseError));
    assert_eq!(parse_fx(b"."), Err(SvgError::NumericParseError));
    assert_eq!(parse_fx(b"12a"), Err(SvgError::NumericParseError));
    assert_eq!(parse_fx(b"1e3"), Err(SvgError::NumericParseError));
    assert_eq!(parse_fx(b"1.2.3"), Err(SvgError::NumericParseError));
    // a million units does not fit the operand range
    assert_eq!(parse_fx(b"1000000"), Err(SvgError::NumericParseError));
    assert_eq!(parse_fx(b"999999"), Ok(999_999 * FX_ONE));
}

#[test]
fn parse_flag_reads_the_two_words() {
    assert_eq!(parse_flag(b"true"), Ok(true));
    assert_eq!(parse_flag(b"false"), Ok(false));
    assert_eq!(parse_flag(b"1"), Err(SvgError::NumericParseError));
    assert_eq!(parse_flag(b"True"), Err(SvgError::NumericParseError));
}

#[test]
fn parse_path_types_the_commands() {
    let cmds = parse_path(b"M 10.0 20.0 L 30.0 40.0 Z").unwrap();
    assert_eq!(cmds.len(), 3);
    assert_eq!(cmds[0], PathCommand::Move(10 * FX_ONE, 20 * FX_ONE));
    assert_eq!(cmds[1], PathCommand::Line(30 * FX_ONE, 40 * FX_ONE));
    assert_eq!(cmds[2], PathCommand::Close);
}

#[test]
fn parse_path_reads_curves_and_arcs() {
    let cmds = parse_path(b"M 0.0 0.0 Q 1.0 2.0 3.0 4.0 C 1.0 2.0 3.0 4.0 5.0 6.0 A 150.0 150.0 0.0 true false 150.0 50.0 H 7.0 V 8.0 S 1.0 2.0 3.0 4.0 T 9.0 9.0").unwrap();
    assert_eq!(cmds.len(), 8);
    assert_eq!(cmds[1], PathCommand::QuadCurve(FX_ONE, 2 * FX_ONE, 3 * FX_ONE, 4 * FX_ONE));
    assert_eq!(
        cmds[3],
        PathCommand::Arc(150 * FX_ONE, 150 * FX_ONE, 0, true, false, 150 * FX_ONE, 50 * FX_ONE)
    );
    assert_eq!(cmds[4], PathCommand::Horizontal(7 * FX_ONE));
    assert_eq!(cmds[5], PathCommand::Vertical(8 * FX_ONE));
    assert_eq!(cmds[7], PathCommand::SmoothQuad(9 * FX_ONE, 9 * FX_ONE));
}

#[test]
fn parse_path_refuses_relative_commands() {
    assert_eq!(parse_path(b"m 10.0 20.0"), Err(SvgError::UnsupportedCommand));
}

#[test]
fn parse_path_refuses_unknown_letters() {
    assert_eq!(parse_path(b"B 1.0 2.0"), Err(SvgError::UnsupportedCommand));
}

#[test]
fn parse_path_checks_arity() {
    assert_eq!(parse_path(b"M 10.0"), Err(SvgError::NumericParseError));
    assert_eq!(parse_path(b"L 1.0 2.0 3.0"), Err(SvgError::NumericParseError));
}

#[test]
fn parse_path_tolerates_leading_junk() {
    let cmds = parse_path(b"  12 M 1.0 2.0").unwrap();
    assert_eq!(cmds.len(), 1);
    assert_eq!(cmds[0], PathCommand::Move(FX_ONE, 2 * FX_ONE));
}

#[test]
fn style_fill_matcher() {
    assert!(svgpath::fill::style_has_fill(b"fill: rgb(10, 20, 30);"));
    assert!(svgpath::fill::style_has_fill(b"stroke: rgb(1,2,3); fill:rgb(4,5,6);"));
    assert!(!svgpath::fill::style_has_fill(b"stroke: rgb(1,2,3);"));
    assert!(!svgpath::fill::style_has_fill(b"fill: rgb(1,2);"));
    assert!(!svgpath::fill::style_has_fill(b"fill: rgb(1,2,3)"));
    assert!(!svgpath::fill::style_has_fill(b""));
}

#[test]
fn error_messages_name_the_failure() {
    assert_eq!(SvgError::MalformedDocument.message(), "malformed document");
    assert_eq!(SvgError::NumericParseError.message(), "numeric parse error");
    assert_eq!(SvgError::UnsupportedCommand.message(), "unsupported command");
    assert_eq!(SvgError::DegenerateArc.message(), "degenerate arc");
}
