use gcode::error::{ErrorKind, Fail, ParseError};
use gcode::shunting_yard::{Expression, Operator, Parameter, Token, TokenErrorKind};
use gcode::text::chars;

fn number(t: &Token) -> Option<f32> {
    match t {
        Token::Value(n) => Some(n.as_str().parse::<f32>().unwrap()),
        _ => None,
    }
}

#[test]
fn ngc_grammar() {
    let input = "[ 10 + 20 / <local> + [<_global> * 14.0] ]";
    let (p, e) = Expression::parse(&chars(input), 0).unwrap();
    assert_eq!(p, 40);
    assert_eq!(e.tokens.len(), 4);
    assert_eq!(number(&e.tokens[0]), Some(10.0));
    assert_eq!(e.tokens[1], Token::Operator(Operator::Add));
    assert_eq!(number(&e.tokens[2]), Some(20.0));
    assert_eq!(e.tokens[3], Token::Operator(Operator::Divide));
}

#[test]
fn expression_with_parameters() {
    let (p, e) = Expression::parse(&chars("[#12 * # <local> - 3]"), 0).unwrap();
    assert_eq!(p, 21);
    assert_eq!(e.tokens[0], Token::Parameter(Parameter::Numbered(12)));
    assert_eq!(e.tokens[1], Token::Operator(Operator::Multiply));
    assert_eq!(e.tokens[2], Token::Parameter(Parameter::Local("local".to_string())));
    assert_eq!(e.tokens[3], Token::Operator(Operator::Subtract));
    assert_eq!(number(&e.tokens[4]), Some(3.0));
}

#[test]
fn expression_errors() {
    let e = Expression::parse(&chars("10 + 20"), 0).unwrap_err();
    assert_eq!(e.kind, TokenErrorKind::Other);
    assert_eq!(e.context, Some(Fail::Error(ParseError { position: 0, kind: ErrorKind::Char })));
    let e = Expression::parse(&chars("[ 10 + 20"), 0).unwrap_err();
    assert_eq!(e.context, Some(Fail::Error(ParseError { position: 2, kind: ErrorKind::TakeUntil })));
}

#[test]
fn operators_and_parameters() {
    assert_eq!(Operator::parse(&chars("*"), 0), Ok((1, Operator::Multiply)));
    assert_eq!(Operator::parse(&chars("x"), 0), Err(Fail::Error(ParseError { position: 0, kind: ErrorKind::OneOf })));
    assert_eq!(Parameter::parse(&chars("#5"), 0), Ok((2, Parameter::Numbered(5))));
    assert_eq!(Parameter::parse(&chars("#<_g>"), 0), Ok((5, Parameter::Local("_g".to_string()))));
    assert_eq!(Parameter::parse(&chars("#70000"), 0), Err(Fail::Error(ParseError { position: 1, kind: ErrorKind::Tag })));
    assert_eq!(Parameter::parse(&chars("#<_g"), 0), Err(Fail::Error(ParseError { position: 3, kind: ErrorKind::TakeUntil })));
}
