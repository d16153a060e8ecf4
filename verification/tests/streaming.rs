use gcode::error::{ErrorKind, Fail, ParseError};
use gcode::streaming::motion::{ArcDirection, Motion};
use gcode::streaming::spindle::Spindle;
use gcode::streaming::parameter::Parameter;
use gcode::streaming::statement::{parse_comment, parse_set_param, CommentKind};
use gcode::streaming::value::Value;
use gcode::text::chars;

#[test]
fn check_spindle() {
    assert_eq!(Spindle::parse(&chars("m3;"), 0), Ok((2, Spindle::Forward)));
    assert_eq!(Spindle::parse(&chars("m03;"), 0), Ok((3, Spindle::Forward)));
    assert_eq!(Spindle::parse(&chars("M4;"), 0), Ok((2, Spindle::Reverse)));
    assert_eq!(Spindle::parse(&chars("M04;"), 0), Ok((3, Spindle::Reverse)));
    assert_eq!(Spindle::parse(&chars("M5;"), 0), Ok((2, Spindle::Stop)));
    assert_eq!(Spindle::parse(&chars("M05;"), 0), Ok((3, Spindle::Stop)));
}

#[test]
fn motions() {
    assert_eq!(Motion::parse(&chars("g0;"), 0), Ok((2, Motion::Rapid)));
    assert_eq!(Motion::parse(&chars("g00;"), 0), Ok((3, Motion::Rapid)));
    assert_eq!(Motion::parse(&chars("G1;"), 0), Ok((2, Motion::Feed)));
    assert_eq!(Motion::parse(&chars("G01;"), 0), Ok((3, Motion::Feed)));
    assert_eq!(Motion::parse(&chars("g2;"), 0), Ok((2, Motion::Arc(ArcDirection::CW))));
    assert_eq!(Motion::parse(&chars("g02;"), 0), Ok((3, Motion::Arc(ArcDirection::CW))));
    assert_eq!(Motion::parse(&chars("G3;"), 0), Ok((2, Motion::Arc(ArcDirection::CCW))));
    assert_eq!(Motion::parse(&chars("G03;"), 0), Ok((3, Motion::Arc(ArcDirection::CCW))));

    assert_eq!(
        Motion::parse(&chars("G04;"), 0),
        Err(Fail::Error(ParseError { position: 0, kind: ErrorKind::Tag }))
    );
}

#[test]
fn local() {
    let input = chars("#<testo>");
    assert_eq!(Parameter::parse(&input, 0), Ok((input.len(), Parameter::Local("testo".to_string()))));
}

#[test]
fn global() {
    let input = chars("#<_testo>");
    assert_eq!(Parameter::parse(&input, 0), Ok((input.len(), Parameter::Global("testo".to_string()))));
}

#[test]
fn index() {
    let input = chars("#5535;");
    assert_eq!(Parameter::parse(&input, 0), Ok((5, Parameter::Index(5535))));
}

#[test]
fn parameter_errors() {
    assert_eq!(Parameter::parse(&chars("5535"), 0), Err(Fail::Error(ParseError { position: 0, kind: ErrorKind::Char })));
    assert_eq!(Parameter::parse(&chars("#<open"), 0), Err(Fail::Error(ParseError { position: 1, kind: ErrorKind::Digit })));
    assert_eq!(Parameter::parse(&chars("#99999999999999999999999"), 0), Err(Fail::Error(ParseError { position: 1, kind: ErrorKind::MapRes })));
}

#[test]
fn literal() {
    let input = chars("100.0;");
    let (p, v) = Value::parse(&input, 0).unwrap();
    assert_eq!(p, 5);
    match v {
        Value::Literal(n) => assert_eq!(n.as_str().parse::<f64>().unwrap(), 100.0),
        other => panic!("unexpected value {:?}", other),
    }
    let input = chars("100;");
    let (p, v) = Value::parse(&input, 0).unwrap();
    assert_eq!(p, 3);
    match v {
        Value::Literal(n) => assert_eq!(n.as_str().parse::<f64>().unwrap(), 100.0),
        other => panic!("unexpected value {:?}", other),
    }
}

#[test]
fn parameter_value() {
    let input = chars("#12 ");
    assert_eq!(Value::parse(&input, 0), Ok((3, Value::Parameter(Parameter::Index(12)))));
}

#[test]
fn comment_statements() {
    let input = chars("(closed)");
    assert_eq!(parse_comment(&input, 0), Ok((8, ("closed".to_string(), CommentKind::Delimited))));
    let input = chars("(newline and param)\n#9=0");
    assert_eq!(parse_comment(&input, 0), Ok((19, ("newline and param".to_string(), CommentKind::Delimited))));
    let input = chars("; Open\n");
    assert_eq!(parse_comment(&input, 0), Ok((6, ("Open".to_string(), CommentKind::Line))));
    assert_eq!(parse_comment(&chars("(open"), 0), Err(Fail::Error(ParseError { position: 1, kind: ErrorKind::TakeUntil })));
    assert_eq!(parse_comment(&chars("G0"), 0), Err(Fail::Error(ParseError { position: 0, kind: ErrorKind::Char })));
}

#[test]
fn set_parameter() {
    let input = chars("#9 = 100;");
    let (p, (param, value)) = parse_set_param(&input, 0).unwrap();
    assert_eq!(p, 8);
    assert_eq!(param, Parameter::Index(9));
    match value {
        Value::Literal(n) => assert_eq!(n.as_str().parse::<f64>().unwrap(), 100.0),
        other => panic!("unexpected value {:?}", other),
    }
    assert_eq!(parse_set_param(&chars("#9 100"), 0), Err(Fail::Error(ParseError { position: 3, kind: ErrorKind::Char })));
}

#[test]
fn spindle_word_followed_by_digit() {
    assert_eq!(Spindle::parse(&chars("M50"), 0), Err(Fail::Error(ParseError { position: 2, kind: ErrorKind::Not })));
    assert_eq!(Spindle::parse(&chars("M6"), 0), Err(Fail::Error(ParseError { position: 0, kind: ErrorKind::Tag })));
}
