use vector_canvas::fixed::fx_from_int;
use vector_canvas::path::parse_svg_path;
use vector_canvas::shape::PathCommand;

fn fx(units: i32) -> i64 {
    fx_from_int(units)
}

#[test]
fn test_parse_simple_path() {
    let cmds = parse_svg_path("M10 20 L30 40 Z");
    assert_eq!(cmds.len(), 3);
    assert!(matches!(cmds[0], PathCommand::MoveTo(p) if p.x == fx(10) && p.y == fx(20)));
    assert!(matches!(cmds[1], PathCommand::LineTo(p) if p.x == fx(30) && p.y == fx(40)));
    assert!(matches!(cmds[2], PathCommand::Close));
}

#[test]
fn test_parse_relative() {
    let cmds = parse_svg_path("M10 20 l20 20");
    assert_eq!(cmds.len(), 2);
    assert!(matches!(cmds[0], PathCommand::MoveTo(p) if p.x == fx(10) && p.y == fx(20)));
    assert!(matches!(cmds[1], PathCommand::LineTo(p) if p.x == fx(30) && p.y == fx(40)));
}

#[test]
fn test_parse_cubic() {
    let cmds = parse_svg_path("M0 0 C10 20 30 40 50 60");
    assert_eq!(cmds.len(), 2);
    assert!(matches!(&cmds[1], PathCommand::CubicTo { ctrl1, ctrl2, to }
        if ctrl1.x == fx(10) && ctrl2.x == fx(30) && to.x == fx(50)));
}

#[test]
fn test_parse_arc() {
    let cmds = parse_svg_path("M0 0 A5 10 45 1 0 20 30");
    assert_eq!(cmds.len(), 2);
    assert!(matches!(&cmds[1], PathCommand::ArcTo { rx, ry, x_rotation, large_arc, sweep, to }
        if *rx == fx(5) && *ry == fx(10) && *x_rotation == fx(45) && *large_arc && !*sweep
            && to.x == fx(20) && to.y == fx(30)));
}

#[test]
fn test_parse_h_v() {
    let cmds = parse_svg_path("M10 10 H50 V30");
    assert_eq!(cmds.len(), 3);
    assert!(matches!(cmds[1], PathCommand::LineTo(p) if p.x == fx(50) && p.y == fx(10)));
    assert!(matches!(cmds[2], PathCommand::LineTo(p) if p.x == fx(50) && p.y == fx(30)));
}

#[test]
fn test_parse_quadratic_and_smooth() {
    let cmds = parse_svg_path("M0 0 Q10 10 20 0 T40 0");
    assert_eq!(cmds.len(), 3);
    assert!(matches!(&cmds[1], PathCommand::QuadraticTo { control, to }
        if control.x == fx(10) && control.y == fx(10) && to.x == fx(20) && to.y == fx(0)));
    // The smooth control point reflects (10, 10) about (20, 0).
    assert!(matches!(&cmds[2], PathCommand::QuadraticTo { control, to }
        if control.x == fx(30) && control.y == fx(-10) && to.x == fx(40) && to.y == fx(0)));
}

#[test]
fn test_parse_smooth_cubic() {
    let cmds = parse_svg_path("M0 0 C0 10 10 10 10 0 S20 -10 20 0");
    assert_eq!(cmds.len(), 3);
    // The first smooth control point reflects (10, 10) about (10, 0).
    assert!(matches!(&cmds[2], PathCommand::CubicTo { ctrl1, ctrl2, to }
        if ctrl1.x == fx(10) && ctrl1.y == fx(-10) && ctrl2.x == fx(20) && ctrl2.y == fx(-10)
            && to.x == fx(20) && to.y == fx(0)));
}

#[test]
fn test_parse_decimals_and_signs() {
    let cmds = parse_svg_path("M1.5-2.5L-3 .5");
    assert_eq!(cmds.len(), 2);
    assert!(matches!(cmds[0], PathCommand::MoveTo(p) if p.x == 1_500_000 && p.y == -2_500_000));
    assert!(matches!(cmds[1], PathCommand::LineTo(p) if p.x == fx(-3) && p.y == 500_000));
}

#[test]
fn test_parse_exponent() {
    let cmds = parse_svg_path("M1e2 2E1");
    assert_eq!(cmds.len(), 1);
    assert!(matches!(cmds[0], PathCommand::MoveTo(p) if p.x == fx(100) && p.y == fx(20)));
}

#[test]
fn test_parse_implicit_moveto_lineto() {
    let cmds = parse_svg_path("M0 0 10 10 20 20");
    assert_eq!(cmds.len(), 3);
    assert!(matches!(cmds[0], PathCommand::MoveTo(p) if p.x == fx(0)));
    assert!(matches!(cmds[1], PathCommand::LineTo(p) if p.x == fx(10)));
    assert!(matches!(cmds[2], PathCommand::LineTo(p) if p.x == fx(20)));
}

#[test]
fn test_parse_unknown_letters_ignored() {
    let cmds = parse_svg_path("M0 0 X L1 1");
    assert_eq!(cmds.len(), 2);
    assert!(matches!(cmds[1], PathCommand::LineTo(p) if p.x == fx(1) && p.y == fx(1)));
    // An unknown letter's trailing numbers end the command scan.
    let cmds = parse_svg_path("M0 0 X9 9 L1 1");
    assert_eq!(cmds.len(), 1);
}

#[test]
fn test_parse_empty_and_garbage() {
    assert_eq!(parse_svg_path("").len(), 0);
    assert_eq!(parse_svg_path("   ").len(), 0);
    // A malformed trailing number ends the list without panicking.
    let cmds = parse_svg_path("M10 20 L30");
    assert_eq!(cmds.len(), 1);
}
