use gcode::error::{ErrorKind, Fail, ParseError};
use gcode::gcode_parser::block::{block, Block};
use gcode::gcode_parser::comment::{comment, Comment, CommentType};
use gcode::gcode_parser::coord::{coord, Coord};
use gcode::gcode_parser::cutter_compensation::{cutter_compensation, CutterCompensation};
use gcode::gcode_parser::distance_mode::{distance_mode, DistanceMode};
use gcode::gcode_parser::motion::{motion, Motion};
use gcode::gcode_parser::non_modal::{non_modal, NonModal};
use gcode::gcode_parser::plane_select::{plane_select, PlaneSelect};
use gcode::gcode_parser::program::GcodeProgram;
use gcode::gcode_parser::spindle::{spindle, Spindle};
use gcode::gcode_parser::stopping::{stopping, Stopping};
use gcode::gcode_parser::token::{token, Token, TokenType};
use gcode::gcode_parser::tool_change::{tool_change, ToolChange};
use gcode::gcode_parser::units::{units, Units};
use gcode::gcode_parser::word::{word, Word};
use gcode::location::Location;
use gcode::number::Number;
use gcode::text::chars;

fn value(n: &Number) -> f32 {
    n.as_str().parse::<f32>().unwrap()
}

fn opt_value(n: &Option<Number>) -> Option<f32> {
    n.as_ref().map(value)
}

fn coord_values(c: &Coord) -> [Option<f32>; 9] {
    [
        opt_value(&c.x),
        opt_value(&c.y),
        opt_value(&c.z),
        opt_value(&c.a),
        opt_value(&c.b),
        opt_value(&c.c),
        opt_value(&c.u),
        opt_value(&c.v),
        opt_value(&c.w),
    ]
}

fn num(x: f32) -> Number {
    Number::new(&x.to_string())
}

fn same_type(a: &TokenType, b: &TokenType) -> bool {
    match (a, b) {
        (TokenType::FeedRate(x), TokenType::FeedRate(y)) => value(x) == value(y),
        (TokenType::SpindleSpeed(x), TokenType::SpindleSpeed(y)) => value(x) == value(y),
        (TokenType::Coord(x), TokenType::Coord(y)) => coord_values(x) == coord_values(y),
        _ => a == b,
    }
}

fn same_tokens(a: &[Token], b: &[Token]) -> bool {
    a.len() == b.len()
        && a.iter().zip(b.iter()).all(|(x, y)| {
            x.start_pos == y.start_pos && x.end_pos == y.end_pos && same_type(&x.token, &y.token)
        })
}

fn same_blocks(a: &[Block], b: &[Block]) -> bool {
    a.len() == b.len()
        && a.iter()
            .zip(b.iter())
            .all(|(x, y)| x.block_delete == y.block_delete && same_tokens(&x.tokens, &y.tokens))
}

/// A token on the first line (where the column is the offset plus one).
fn tok(t: TokenType, start: usize, end: usize) -> Token {
    tok_at(t, (start, end), (1, 1), (start + 1, end + 1))
}

fn tok_at(t: TokenType, offs: (usize, usize), line: (u32, u32), col: (usize, usize)) -> Token {
    Token {
        start_pos: Location::new(offs.0, line.0, col.0),
        end_pos: Location::new(offs.1, line.1, col.1),
        token: t,
    }
}

fn error(position: usize, kind: ErrorKind) -> Fail {
    Fail::Error(ParseError { position, kind })
}

#[test]
fn canonical() {
    let r = word::<u8>(&chars("G1"), 0, 'G');
    assert_eq!(r, Ok((2, Word::<u8>::new('G', 1u8))));
}

#[test]
fn spaces() {
    let r = word::<u8>(&chars("G \t 1"), 0, 'G');
    assert_eq!(r, Ok((5, Word::<u8>::new('G', 1u8))));
}

#[test]
fn word_leading_zeros() {
    assert_eq!(word::<u8>(&chars("G00"), 0, 'G'), Ok((3, Word::<u8>::new('G', 0u8))));
    assert_eq!(word::<u8>(&chars("G01"), 0, 'G'), Ok((3, Word::<u8>::new('G', 1u8))));
}

#[test]
fn float() {
    let r = word::<Number>(&chars("X12.45"), 0, 'X').unwrap();
    assert_eq!(r.0, 6);
    assert_eq!(r.1.letter, 'X');
    assert_eq!(value(&r.1.value), 12.45f32);

    // Fail to parse to an integer due to trailing characters
    assert_eq!(word::<u8>(&chars("X12.45"), 0, 'X'), Err(error(1, ErrorKind::MapRes)));
}

#[test]
fn non_matching() {
    assert_eq!(word::<u8>(&chars("G1"), 0, 'X'), Err(error(0, ErrorKind::Verify)));
}

#[test]
fn force_uppercase() {
    assert_eq!(word::<u8>(&chars("g1"), 0, 'g'), Ok((2, Word::<u8>::new('G', 1u8))));
    assert_eq!(word::<u8>(&chars("g1"), 0, 'G'), Ok((2, Word::<u8>::new('G', 1u8))));
    assert_eq!(word::<u8>(&chars("G1"), 0, 'g'), Ok((2, Word::<u8>::new('G', 1u8))));
}

#[test]
fn motion_rapid() {
    assert_eq!(motion(&chars("G0"), 0), Ok((2, Motion::Rapid)));
    assert_eq!(motion(&chars("G00"), 0), Ok((3, Motion::Rapid)));
}

#[test]
fn feed() {
    assert_eq!(motion(&chars("G1"), 0), Ok((2, Motion::Feed)));
    assert_eq!(motion(&chars("G01"), 0), Ok((3, Motion::Feed)));
}

#[test]
fn ignore_unknown() {
    assert_eq!(motion(&chars("G17"), 0), Err(error(0, ErrorKind::MapRes)));
    assert_eq!(motion(&chars("G90"), 0), Err(error(0, ErrorKind::MapRes)));
}

#[test]
fn parse_units() {
    assert_eq!(units(&chars("G20"), 0), Ok((3, Units::Inch)));
    assert_eq!(units(&chars("G21"), 0), Ok((3, Units::Mm)));
}

#[test]
fn spindle_parse_spindle() {
    assert_eq!(spindle(&chars("M3"), 0), Ok((2, Spindle::Forward)));
    assert_eq!(spindle(&chars("M4"), 0), Ok((2, Spindle::Reverse)));
    assert_eq!(spindle(&chars("M5"), 0), Ok((2, Spindle::Stop)));
}

#[test]
fn spindle_leading_zeros() {
    assert_eq!(spindle(&chars("M03"), 0), Ok((3, Spindle::Forward)));
    assert_eq!(spindle(&chars("M04"), 0), Ok((3, Spindle::Reverse)));
    assert_eq!(spindle(&chars("M05"), 0), Ok((3, Spindle::Stop)));
}

#[test]
fn parse_program_end() {
    assert_eq!(stopping(&chars("M2"), 0), Ok((2, Stopping::EndProgram)));
    assert_eq!(stopping(&chars("M02"), 0), Ok((3, Stopping::EndProgram)));
}

#[test]
fn change_tool() {
    assert_eq!(tool_change(&chars("M6"), 0), Ok((2, ToolChange::ToolChange)));
    assert_eq!(tool_change(&chars("M06"), 0), Ok((3, ToolChange::ToolChange)));
}

#[test]
fn check_distance_mode() {
    assert_eq!(distance_mode(&chars("G90"), 0), Ok((3, DistanceMode::Absolute)));
    assert_eq!(distance_mode(&chars("G91"), 0), Ok((3, DistanceMode::Incremental)));
}

#[test]
fn cutter_comp() {
    assert_eq!(cutter_compensation(&chars("G40"), 0), Ok((3, CutterCompensation::Disabled)));
    assert_eq!(cutter_compensation(&chars("G41"), 0), Ok((3, CutterCompensation::Left)));
    assert_eq!(cutter_compensation(&chars("G42"), 0), Ok((3, CutterCompensation::Right)));
}

#[test]
fn xy_plane_select() {
    assert_eq!(plane_select(&chars("G17"), 0), Ok((3, PlaneSelect::XY)));
}

#[test]
fn extra() {
    assert_eq!(plane_select(&chars("G17.1"), 0), Ok((5, PlaneSelect::UV)));
}

#[test]
fn parens_comment() {
    assert_eq!(
        comment(&chars("( hello world )"), 0),
        Ok((15, Comment { text: "hello world".to_string(), comment_type: CommentType::Parens }))
    );
}

#[test]
fn line_ending_comment() {
    assert_eq!(
        comment(&chars("; hello world"), 0),
        Ok((13, Comment { text: "hello world".to_string(), comment_type: CommentType::LineEnd }))
    );
}

#[test]
fn coord_empty() {
    assert_eq!(coord(&chars(""), 0), Err(error(0, ErrorKind::Eof)));
}

#[test]
fn coord_full() {
    let (p, c) = coord(&chars("X1 Y2 Z3 A4 B5 C6 U7 V8 W9"), 0).unwrap();
    assert_eq!(p, 26);
    let all = Coord::all(num(1.0), num(2.0), num(3.0), num(4.0), num(5.0), num(6.0), num(7.0), num(8.0), num(9.0));
    assert_eq!(coord_values(&c), coord_values(&all));
}

#[test]
fn coord_partial() {
    let (p, c) = coord(&chars("X1 Y2 V8 W9"), 0).unwrap();
    assert_eq!(p, 11);
    let expected = Coord { x: Some(num(1.0)), y: Some(num(2.0)), v: Some(num(8.0)), w: Some(num(9.0)), ..Coord::default() };
    assert_eq!(coord_values(&c), coord_values(&expected));
}

#[test]
fn coord_random_order() {
    let (p, c) = coord(&chars("U7 C6 Y2 X1 A4 B5 Z3 W9 V8"), 0).unwrap();
    assert_eq!(p, 26);
    let all = Coord::all(num(1.0), num(2.0), num(3.0), num(4.0), num(5.0), num(6.0), num(7.0), num(8.0), num(9.0));
    assert_eq!(coord_values(&c), coord_values(&all));
}

#[test]
fn coord_no_repeats() {
    let (p, c) = coord(&chars("X1 Y2 X3"), 0).unwrap();
    // The remaining input is "X3"
    assert_eq!(p, 6);
    let expected = Coord { x: Some(num(1.0)), y: Some(num(2.0)), ..Coord::default() };
    assert_eq!(coord_values(&c), coord_values(&expected));
}

#[test]
fn coord_multi() {
    // Coordinates parsed one after another until the input ends (`many1`)
    let input = chars("X1 Y2 X3");
    let (p1, c1) = coord(&input, 0).unwrap();
    let (p2, c2) = coord(&input, p1).unwrap();
    assert_eq!(p2, 8);
    assert!(coord(&input, p2).is_err());
    let first = Coord { x: Some(num(1.0)), y: Some(num(2.0)), ..Coord::default() };
    let second = Coord { x: Some(num(3.0)), ..Coord::default() };
    assert_eq!(coord_values(&c1), coord_values(&first));
    assert_eq!(coord_values(&c2), coord_values(&second));
}

#[test]
fn float_dwell() {
    match non_modal(&chars("G4 P12.34"), 0) {
        Ok((9, NonModal::Dwell { duration })) => assert_eq!(value(&duration), 12.34),
        other => panic!("{:?}", other),
    }
}

#[test]
fn zero_seconds() {
    match non_modal(&chars("G4 P0"), 0) {
        Ok((5, NonModal::Dwell { duration })) => assert_eq!(value(&duration), 0.0),
        other => panic!("{:?}", other),
    }
}

#[test]
fn requires_p_word() {
    assert_eq!(non_modal(&chars("G4"), 0), Err(error(2, ErrorKind::Eof)));
}

#[test]
fn negative() {
    assert_eq!(non_modal(&chars("G4 P-1.0"), 0), Err(error(3, ErrorKind::Verify)));
}

#[test]
fn g92_correct() {
    match non_modal(&chars("G92 Y0.326 X0.000"), 0) {
        Ok((17, NonModal::CoordinateSystemOffset { position })) => {
            assert_eq!(coord_values(&position), coord_values(&Coord::with_xy(num(0.0), num(0.326))))
        }
        other => panic!("{:?}", other),
    }
}

#[test]
fn invalid_tool_numbers() {
    assert_eq!(token(&chars("T-2"), 0), Err(error(0, ErrorKind::Verify)));
    assert_eq!(token(&chars("T1.2"), 0), Err(error(0, ErrorKind::Verify)));
}

#[test]
fn negative_feed() {
    assert_eq!(token(&chars("F-0.0"), 0), Err(error(0, ErrorKind::Verify)));
    assert_eq!(token(&chars("F-102"), 0), Err(error(0, ErrorKind::Verify)));
}

#[test]
fn does_not_parse_line_number() {
    assert_eq!(token(&chars("N1 G40"), 0), Err(error(0, ErrorKind::Verify)));
}

#[test]
fn spindle_speed() {
    let (p, t) = token(&chars("S0"), 0).unwrap();
    assert_eq!(p, 2);
    assert!(same_tokens(&[t], &[tok(TokenType::SpindleSpeed(num(0.0)), 0, 2)]));

    let (p, t) = token(&chars("S5000"), 0).unwrap();
    assert_eq!(p, 5);
    assert!(same_tokens(&[t], &[tok(TokenType::SpindleSpeed(num(5000.0)), 0, 5)]));

    let (p, t) = token(&chars("S340.6"), 0).unwrap();
    assert_eq!(p, 6);
    assert!(same_tokens(&[t], &[tok(TokenType::SpindleSpeed(num(340.6)), 0, 6)]));

    assert_eq!(token(&chars("S-200.0"), 0), Err(error(0, ErrorKind::Verify)));
}

#[test]
fn block_delete() {
    let (p, b) = block(&chars("/ G1 X10"), 0).unwrap();
    assert_eq!(p, 8);
    assert!(b.block_delete);
    assert!(same_tokens(
        &b.tokens,
        &[
            tok(TokenType::BlockDelete, 0, 1),
            tok(TokenType::Motion(Motion::Feed), 2, 4),
            tok(TokenType::Coord(Coord::with_x(num(10.0))), 5, 8),
        ]
    ));
}

#[test]
fn line_number() {
    let (p, b) = block(&chars("N1234 G1 X10"), 0).unwrap();
    assert_eq!(p, 12);
    assert!(!b.block_delete);
    assert!(same_tokens(
        &b.tokens,
        &[
            tok(TokenType::LineNumber(1234u32), 0, 5),
            tok(TokenType::Motion(Motion::Feed), 6, 8),
            tok(TokenType::Coord(Coord::with_x(num(10.0))), 9, 12),
        ]
    ));
}

#[test]
fn line_number_and_block_delete() {
    let (p, b) = block(&chars("/ N1234 G1 X10"), 0).unwrap();
    assert_eq!(p, 14);
    assert!(b.block_delete);
    assert!(same_tokens(
        &b.tokens,
        &[
            tok(TokenType::BlockDelete, 0, 1),
            tok(TokenType::LineNumber(1234u32), 2, 7),
            tok(TokenType::Motion(Motion::Feed), 8, 10),
            tok(TokenType::Coord(Coord::with_x(num(10.0))), 11, 14),
        ]
    ));
}

#[test]
fn whitespace() {
    let program_text = r#"
            F500

        M2
        "#;

    let program = GcodeProgram::from_str(program_text).unwrap();

    let expected = vec![
        Block {
            block_delete: false,
            tokens: vec![tok_at(TokenType::FeedRate(num(500.0)), (13, 17), (2, 2), (13, 17))],
        },
        Block { block_delete: false, tokens: vec![] },
        Block {
            block_delete: false,
            tokens: vec![tok_at(TokenType::Stopping(Stopping::EndProgram), (27, 29), (4, 4), (9, 11))],
        },
        Block { block_delete: false, tokens: vec![] },
    ];
    assert!(same_blocks(program.block_iter(), &expected));
}

#[test]
fn windows() {
    let program_text = "(SuperCam Ver 2.2a SPINDLE)\r\nN1 G20\t( set inches mode - ash )";

    let program = GcodeProgram::from_str(program_text).unwrap();

    let expected = vec![
        Block {
            block_delete: false,
            tokens: vec![tok_at(
                TokenType::Comment(Comment::new("SuperCam Ver 2.2a SPINDLE", CommentType::Parens)),
                (0, 27),
                (1, 1),
                (1, 28),
            )],
        },
        Block {
            block_delete: false,
            tokens: vec![
                tok_at(TokenType::LineNumber(1), (29, 31), (2, 2), (1, 3)),
                tok_at(TokenType::Units(Units::Inch), (32, 35), (2, 2), (4, 7)),
                tok_at(
                    TokenType::Comment(Comment::new("set inches mode - ash", CommentType::Parens)),
                    (36, 61),
                    (2, 2),
                    (8, 33),
                ),
            ],
        },
    ];
    assert!(same_blocks(program.block_iter(), &expected));
}

#[test]
fn parse_error_message() {
    let text = "G0 X1\nG1 Q5";
    let err = match GcodeProgram::from_str(text) {
        Err(e) => e,
        Ok(_) => panic!("parse should fail"),
    };
    assert_eq!(err.failure_point, Location::new(9, 2, 4));
    assert_eq!(err.message(), "Error on line 2:\n\nG1 Q5\n   ^");
}

#[test]
fn exponent_without_digits_fails_at_the_end() {
    let e = GcodeProgram::from_str("X1e").unwrap_err();
    assert_eq!(e.failure_point.offset, 3);
    let e = GcodeProgram::from_str("G0\nQ").unwrap_err();
    assert_eq!((e.failure_point.offset, e.failure_point.line, e.failure_point.column), (3, 2, 1));
}

#[test]
fn block_token_spans_in_order() {
    let program = GcodeProgram::from_str("/ N10 G0 X1 (hi)").unwrap();
    let tokens = &program.blocks[0].tokens;
    assert!(matches!(tokens[0].token, TokenType::BlockDelete));
    assert!(matches!(tokens[1].token, TokenType::LineNumber(10)));
    for i in 0..tokens.len() {
        assert!(tokens[i].start_pos.offset <= tokens[i].end_pos.offset);
        if i + 1 < tokens.len() {
            assert!(tokens[i].end_pos.offset <= tokens[i + 1].start_pos.offset);
        }
    }
}

#[test]
fn text_fits_ordinary_programs() {
    assert!(gcode::location::text_fits("G0 X1\nG1 Y2\n"));
    assert!(gcode::location::text_fits(""));
    assert!(gcode::location::chars_fit(&gcode::text::chars("é€𝄞\n")));
}
