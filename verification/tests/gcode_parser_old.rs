use gcode::error::{ErrorKind, Fail, ParseError};
use gcode::gcode_parser_old::coord::{coord, Coord};
use gcode::number::Number;
use gcode::text::chars;

fn value(n: &Number) -> f32 {
    n.as_str().parse::<f32>().unwrap()
}

fn coord_values(c: &Coord) -> Vec<Option<f32>> {
    [&c.x, &c.y, &c.z, &c.a, &c.b, &c.c, &c.u, &c.v, &c.w].iter().map(|o| o.as_ref().map(value)).collect()
}

fn parsed(input: &str) -> (usize, Vec<Option<f32>>) {
    let (p, c) = coord(&chars(input), 0).unwrap();
    (p, coord_values(&c))
}

#[test]
fn old_coord_empty() {
    assert_eq!(coord(&chars(""), 0), Err(Fail::Error(ParseError { position: 0, kind: ErrorKind::Eof })));
}

#[test]
fn old_coord_full() {
    let all: Vec<Option<f32>> = (1..=9).map(|v| Some(v as f32)).collect();
    assert_eq!(parsed("X1 Y2 Z3 A4 B5 C6 U7 V8 W9"), (26, all));
}

#[test]
fn old_coord_partial() {
    assert_eq!(parsed("X1 Y2 V8 W9"), (11, vec![Some(1.0), Some(2.0), None, None, None, None, None, Some(8.0), Some(9.0)]));
}

#[test]
fn old_coord_random_order() {
    let all: Vec<Option<f32>> = (1..=9).map(|v| Some(v as f32)).collect();
    assert_eq!(parsed("U7 C6 Y2 X1 A4 B5 Z3 W9 V8"), (26, all));
}

#[test]
fn old_coord_no_repeats() {
    assert_eq!(parsed("X1 Y2 X3"), (5, vec![Some(1.0), Some(2.0), None, None, None, None, None, None, None]));
}

#[test]
fn old_coord_multi() {
    let input = chars("X1 Y2 X3");
    let (p, first) = coord(&input, 0).unwrap();
    let (q, second) = coord(&input, p).unwrap();
    assert_eq!(q, 8);
    assert_eq!(coord_values(&first), vec![Some(1.0), Some(2.0), None, None, None, None, None, None, None]);
    assert_eq!(coord_values(&second), vec![Some(3.0), None, None, None, None, None, None, None, None]);
    assert!(coord(&input, q).is_err());
}

#[test]
fn old_coord_lower_case_and_unknown_letters() {
    assert_eq!(parsed("x1 y2"), (5, vec![Some(1.0), Some(2.0), None, None, None, None, None, None, None]));
    assert_eq!(coord(&chars("Q1"), 0), Err(Fail::Error(ParseError { position: 0, kind: ErrorKind::ManyMN })));
    assert_eq!(coord(&chars("X"), 0), Err(Fail::Error(ParseError { position: 1, kind: ErrorKind::Float })));
}

#[test]
fn old_coord_into_axes() {
    let (_, c) = coord(&chars("X1 W9"), 0).unwrap();
    let axes: Vec<f32> = c.into_axes().iter().map(value).collect();
    assert_eq!(axes, vec![1.0, 0.0, 0.0, 0.0, 0.0, 0.0, 0.0, 0.0, 9.0]);
}
